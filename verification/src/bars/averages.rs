//! Averages over bars, over pairs of adjacent bars, and over those that qualify.

use crate::bar::OhlcvBar;
use crate::bars::{
    bar_returns, bodies, bodies_per_open, bodies_per_volume, body_midpoints, body_shares,
    body_shares_or_zero, body_slacks, close_accelerations, close_changes, close_locations,
    close_moves, close_positions, close_positions_or_half, close_to_high_shares, close_to_lows,
    close_to_prev_opens, gap_sizes, high_changes, high_low_excesses, high_low_ratios,
    high_to_closes, high_to_open_returns, low_changes, low_to_closes, lower_wick_shares,
    midpoint_changes, midpoint_leads, midpoint_offsets, moving_bars, nonzero_bodies, nonzero_closes,
    nonzero_highs, nonzero_lows, nonzero_opens, nonzero_prior_closes, nonzero_volumes,
    open_positions, open_positions_or_half, open_to_high_ratios, open_to_high_shares,
    opens_per_midpoint_or_one, percent_returns, range_changes, ranged_bars, ranges,
    ranges_per_body_midpoint_or_zero, ranges_per_close, ranges_per_open, ranges_per_open_or_zero,
    ranges_per_prior_close_or_zero, ranges_per_volume, relative_close_changes, relative_close_moves,
    relative_gap_sizes, relative_gaps, relative_high_moves, shadow_shares, signed_body_shares,
    stop_distances, true_ranges, two_wick_bars, upper_body_shares, upper_wick_shares,
    upper_wick_shares_or_half, upper_wicks_per_body, upright_bars, volume_changes, volume_moves,
    volumes_per_open, volumes_per_range, wick_asymmetries, wick_balances, wick_imbalances,
    wick_ratios, wick_shares, wick_symmetries, wick_totals, wicked_bars, wicks_per_body,
};
use crate::bars::deviations::{lemma_listed, listed};
use crate::decimal::{
    hundredths, is_nought, larger, magnitude, minus, over, over_or, plus, smaller, times, unit,
    whole, yields, Decimal,
};
use crate::moments::{dot, mean_square_of, units_of};
use crate::scientific::{yields_ratio, Scientific};
use crate::series::{self, all_some, mean, mean_where, tally, windows};
use vstd::prelude::*;

verus! {

impl OhlcvBar {
    /// Mean wick ratio (upper_wick + lower_wick) / range across the slice.
    ///
    /// Bars where range is zero are excluded. Returns `None` if the slice is
    /// empty or all bars have zero range.
    pub fn mean_wick_ratio(bars: &[OhlcvBar]) -> (r: Option<Decimal>)
        requires
            forall|i: int| 0 <= i < bars@.len() ==> (#[trigger] bars@[i]).range_val() is Some,
            tally(bars@.len() as int, ranged_bars(bars@)) > 0
                ==> mean_where(bars@.len() as int, ranged_bars(bars@), wick_shares(bars@)) is Some,
        ensures
            yields(
                r,
                tally(bars@.len() as int, ranged_bars(bars@)) > 0,
                mean_where(bars@.len() as int, ranged_bars(bars@), wick_shares(bars@)),
            ),
    {
        series::average(
            bars,
            |b: &OhlcvBar| -> (r: bool)
                requires
                    b.range_val() is Some,
                ensures
                    r == (!is_nought(b.range_val()))
            { !b.range().is_zero() },
            |b: &OhlcvBar| -> (d: Decimal)
                requires
                    over(plus(b.wick_upper_val(), b.wick_lower_val()), b.range_val()) is Some,
                ensures
                    d.val() == over(plus(b.wick_upper_val(), b.wick_lower_val()), b.range_val())
            { (b.wick_upper() + b.wick_lower()) / b.range() },
            Ghost(ranged_bars(bars@)),
            Ghost(wick_shares(bars@)),
        )
    }

    /// Mean body-to-range ratio across the slice.
    ///
    /// Bars with zero range are excluded.
    /// Returns `None` if the slice is empty or all bars have zero range.
    pub fn mean_body_ratio(bars: &[OhlcvBar]) -> (r: Option<Decimal>)
        requires
            forall|i: int| 0 <= i < bars@.len() ==> (#[trigger] bars@[i]).range_val() is Some,
            tally(bars@.len() as int, ranged_bars(bars@)) > 0
                ==> mean_where(bars@.len() as int, ranged_bars(bars@), body_shares(bars@)) is Some,
        ensures
            yields(
                r,
                tally(bars@.len() as int, ranged_bars(bars@)) > 0,
                mean_where(bars@.len() as int, ranged_bars(bars@), body_shares(bars@)),
            ),
    {
        series::average(
            bars,
            |b: &OhlcvBar| -> (r: bool)
                requires
                    b.range_val() is Some,
                ensures
                    r == (!is_nought(b.range_val()))
            { !b.range().is_zero() },
            |b: &OhlcvBar| -> (d: Decimal)
                requires
                    over(b.body_val(), b.range_val()) is Some,
                ensures
                    d.val() == over(b.body_val(), b.range_val())
            { b.body() / b.range() },
            Ghost(ranged_bars(bars@)),
            Ghost(body_shares(bars@)),
        )
    }

    /// Mean ratio of total wick length to body size across all bars.
    ///
    /// For each bar: `(upper_wick + lower_wick) / body`. Bars with a zero body
    /// are skipped. Returns `None` if no valid bars exist.
    pub fn wick_body_ratio(bars: &[OhlcvBar]) -> (r: Option<Decimal>)
        requires
            forall|i: int| 0 <= i < bars@.len() ==> (#[trigger] bars@[i]).body_val() is Some,
            tally(bars@.len() as int, nonzero_bodies(bars@)) > 0
                ==> mean_where(
                    bars@.len() as int,
                    nonzero_bodies(bars@),
                    wicks_per_body(bars@),
                ) is Some,
        ensures
            yields(
                r,
                tally(bars@.len() as int, nonzero_bodies(bars@)) > 0,
                mean_where(bars@.len() as int, nonzero_bodies(bars@), wicks_per_body(bars@)),
            ),
    {
        series::average(
            bars,
            |b: &OhlcvBar| -> (r: bool)
                requires
                    b.body_val() is Some,
                ensures
                    r == (!is_nought(b.body_val()))
            { !b.body().is_zero() },
            |b: &OhlcvBar| -> (d: Decimal)
                requires
                    over(plus(b.wick_upper_val(), b.wick_lower_val()), b.body_val()) is Some,
                ensures
                    d.val() == over(plus(b.wick_upper_val(), b.wick_lower_val()), b.body_val())
            { (b.wick_upper() + b.wick_lower()) / b.body() },
            Ghost(nonzero_bodies(bars@)),
            Ghost(wicks_per_body(bars@)),
        )
    }

    /// Mean total wick size (upper + lower wick) across all bars.
    ///
    /// Returns `None` if the slice is empty.
    pub fn avg_wick_size(bars: &[OhlcvBar]) -> (r: Option<Decimal>)
        requires
            bars@.len() > 0 ==> mean(bars@.len() as int, wick_totals(bars@)) is Some,
        ensures
            yields(r, bars@.len() > 0, mean(bars@.len() as int, wick_totals(bars@))),
    {
        if bars.len() == 0 {
            return None;
        }
        let sum = series::add_up(
            bars,
            |b: &OhlcvBar| -> (d: Decimal)
                requires
                    plus(b.wick_upper_val(), b.wick_lower_val()) is Some,
                ensures
                    d.val() == plus(b.wick_upper_val(), b.wick_lower_val())
            { b.wick_upper() + b.wick_lower() },
            Ghost(wick_totals(bars@)),
        );
        Some(sum / Decimal::count(bars.len() as u64))
    }

    /// Mean absolute difference between open and close across all bars.
    ///
    /// Returns `None` if the slice is empty.
    pub fn open_close_spread(bars: &[OhlcvBar]) -> (r: Option<Decimal>)
        requires
            bars@.len() > 0 ==> mean(bars@.len() as int, bodies(bars@)) is Some,
        ensures
            yields(r, bars@.len() > 0, mean(bars@.len() as int, bodies(bars@))),
    {
        if bars.len() == 0 {
            return None;
        }
        let sum = series::add_up(
            bars,
            |b: &OhlcvBar| -> (d: Decimal)
                requires
                    b.body_val() is Some,
                ensures
                    d.val() == b.body_val()
            { b.body() },
            Ghost(bodies(bars@)),
        );
        Some(sum / Decimal::count(bars.len() as u64))
    }

    /// Mean spread between high and close across all bars.
    ///
    /// `mean(high - close)`. Always ≥ 0 since high ≥ close by definition.
    /// Returns `None` if the slice is empty.
    pub fn high_close_spread(bars: &[OhlcvBar]) -> (r: Option<Decimal>)
        requires
            bars@.len() > 0 ==> mean(bars@.len() as int, high_to_closes(bars@)) is Some,
        ensures
            yields(r, bars@.len() > 0, mean(bars@.len() as int, high_to_closes(bars@))),
    {
        if bars.len() == 0 {
            return None;
        }
        let sum = series::add_up(
            bars,
            |b: &OhlcvBar| -> (d: Decimal)
                requires
                    minus(b.high.val(), b.close.val()) is Some,
                ensures
                    d.val() == minus(b.high.val(), b.close.val())
            { b.high - b.close },
            Ghost(high_to_closes(bars@)),
        );
        Some(sum / Decimal::count(bars.len() as u64))
    }

    /// Mean open-to-first-close range for the session opening bar.
    ///
    /// Defined as the absolute distance `|close - open|` averaged over all
    /// bars. Equivalent to [`open_close_spread`] but named for discoverability.
    /// Returns `None` if the slice is empty.
    pub fn open_range(bars: &[OhlcvBar]) -> (r: Option<Decimal>)
        requires
            bars@.len() > 0 ==> mean(bars@.len() as int, bodies(bars@)) is Some,
        ensures
            yields(r, bars@.len() > 0, mean(bars@.len() as int, bodies(bars@))),
    {
        Self::open_close_spread(bars)
    }

    /// Mean `(close - open) / open * 100` across all bars.
    ///
    /// Bars with zero open are skipped. Returns `None` if no valid bars.
    pub fn close_minus_open_pct(bars: &[OhlcvBar]) -> (r: Option<Decimal>)
        requires
            tally(bars@.len() as int, nonzero_opens(bars@)) > 0
                ==> mean_where(
                    bars@.len() as int,
                    nonzero_opens(bars@),
                    percent_returns(bars@),
                ) is Some,
        ensures
            yields(
                r,
                tally(bars@.len() as int, nonzero_opens(bars@)) > 0,
                mean_where(bars@.len() as int, nonzero_opens(bars@), percent_returns(bars@)),
            ),
    {
        series::average(
            bars,
            |b: &OhlcvBar| -> (r: bool)
                ensures
                    r == (b.open@ != 0)
            { !b.open.is_zero() },
            |b: &OhlcvBar| -> (d: Decimal)
                requires
                    times(over(b.price_change_val(), b.open.val()), whole(100)) is Some,
                ensures
                    d.val() == times(over(b.price_change_val(), b.open.val()), whole(100))
            { b.price_change() / b.open * Decimal::whole(100) },
            Ghost(nonzero_opens(bars@)),
            Ghost(percent_returns(bars@)),
        )
    }

    /// Mean volume per unit of bar range.
    ///
    /// `volume / (high - low)`. Bars with zero range are skipped. Returns
    /// `None` if the slice is empty or all bars have zero range.
    pub fn volume_per_range(bars: &[OhlcvBar]) -> (r: Option<Decimal>)
        requires
            forall|i: int| 0 <= i < bars@.len() ==> (#[trigger] bars@[i]).range_val() is Some,
            tally(bars@.len() as int, ranged_bars(bars@)) > 0
                ==> mean_where(
                    bars@.len() as int,
                    ranged_bars(bars@),
                    volumes_per_range(bars@),
                ) is Some,
        ensures
            yields(
                r,
                tally(bars@.len() as int, ranged_bars(bars@)) > 0,
                mean_where(bars@.len() as int, ranged_bars(bars@), volumes_per_range(bars@)),
            ),
    {
        series::average(
            bars,
            |b: &OhlcvBar| -> (r: bool)
                requires
                    b.range_val() is Some,
                ensures
                    r == (!is_nought(b.range_val()))
            { !b.range().is_zero() },
            |b: &OhlcvBar| -> (d: Decimal)
                requires
                    over(b.volume.val(), b.range_val()) is Some,
                ensures
                    d.val() == over(b.volume.val(), b.range_val())
            { b.volume / b.range() },
            Ghost(ranged_bars(bars@)),
            Ghost(volumes_per_range(bars@)),
        )
    }

    /// Average body size (|close − open|) as a fraction of total bar range.
    ///
    /// Returns `None` if all bars have zero range or the slice is empty.
    pub fn body_fraction(bars: &[OhlcvBar]) -> (r: Option<Decimal>)
        requires
            forall|i: int| 0 <= i < bars@.len() ==> (#[trigger] bars@[i]).range_val() is Some,
            tally(bars@.len() as int, ranged_bars(bars@)) > 0
                ==> mean_where(bars@.len() as int, ranged_bars(bars@), body_shares(bars@)) is Some,
        ensures
            yields(
                r,
                tally(bars@.len() as int, ranged_bars(bars@)) > 0,
                mean_where(bars@.len() as int, ranged_bars(bars@), body_shares(bars@)),
            ),
    {
        Self::mean_body_ratio(bars)
    }

    /// Average upper wick as a fraction of total bar range.
    ///
    /// Upper wick = high − max(open, close). Returns `None` if all bars have
    /// zero range or the slice is empty.
    pub fn tail_upper_fraction(bars: &[OhlcvBar]) -> (r: Option<Decimal>)
        requires
            forall|i: int| 0 <= i < bars@.len() ==> (#[trigger] bars@[i]).range_val() is Some,
            tally(bars@.len() as int, ranged_bars(bars@)) > 0
                ==> mean_where(
                    bars@.len() as int,
                    ranged_bars(bars@),
                    upper_wick_shares(bars@),
                ) is Some,
        ensures
            yields(
                r,
                tally(bars@.len() as int, ranged_bars(bars@)) > 0,
                mean_where(bars@.len() as int, ranged_bars(bars@), upper_wick_shares(bars@)),
            ),
    {
        series::average(
            bars,
            |b: &OhlcvBar| -> (r: bool)
                requires
                    b.range_val() is Some,
                ensures
                    r == (!is_nought(b.range_val()))
            { !b.range().is_zero() },
            |b: &OhlcvBar| -> (d: Decimal)
                requires
                    over(b.wick_upper_val(), b.range_val()) is Some,
                ensures
                    d.val() == over(b.wick_upper_val(), b.range_val())
            { b.wick_upper() / b.range() },
            Ghost(ranged_bars(bars@)),
            Ghost(upper_wick_shares(bars@)),
        )
    }

    /// Average lower wick as a fraction of total bar range.
    ///
    /// Lower wick = min(open, close) − low. Returns `None` if all bars have
    /// zero range or the slice is empty.
    pub fn tail_lower_fraction(bars: &[OhlcvBar]) -> (r: Option<Decimal>)
        requires
            forall|i: int| 0 <= i < bars@.len() ==> (#[trigger] bars@[i]).range_val() is Some,
            tally(bars@.len() as int, ranged_bars(bars@)) > 0
                ==> mean_where(
                    bars@.len() as int,
                    ranged_bars(bars@),
                    lower_wick_shares(bars@),
                ) is Some,
        ensures
            yields(
                r,
                tally(bars@.len() as int, ranged_bars(bars@)) > 0,
                mean_where(bars@.len() as int, ranged_bars(bars@), lower_wick_shares(bars@)),
            ),
    {
        series::average(
            bars,
            |b: &OhlcvBar| -> (r: bool)
                requires
                    b.range_val() is Some,
                ensures
                    r == (!is_nought(b.range_val()))
            { !b.range().is_zero() },
            |b: &OhlcvBar| -> (d: Decimal)
                requires
                    over(b.wick_lower_val(), b.range_val()) is Some,
                ensures
                    d.val() == over(b.wick_lower_val(), b.range_val())
            { b.wick_lower() / b.range() },
            Ghost(ranged_bars(bars@)),
            Ghost(lower_wick_shares(bars@)),
        )
    }

    /// Mean of `(close − low) / range` across bars — where the close lands
    /// inside each bar's high-low range.
    ///
    /// Returns `None` if the slice is empty or every bar has zero range.
    /// A value near 1.0 means closes are consistently near the high (bullish);
    /// near 0.0 means closes hug the low (bearish).
    pub fn close_to_range_position(bars: &[OhlcvBar]) -> (r: Option<Decimal>)
        requires
            forall|i: int| 0 <= i < bars@.len() ==> (#[trigger] bars@[i]).range_val() is Some,
            tally(bars@.len() as int, ranged_bars(bars@)) > 0
                ==> mean_where(bars@.len() as int, ranged_bars(bars@), close_positions(bars@)) is Some,
        ensures
            yields(
                r,
                tally(bars@.len() as int, ranged_bars(bars@)) > 0,
                mean_where(bars@.len() as int, ranged_bars(bars@), close_positions(bars@)),
            ),
    {
        series::average(
            bars,
            |b: &OhlcvBar| -> (r: bool)
                requires
                    b.range_val() is Some,
                ensures
                    r == (!is_nought(b.range_val()))
            { !b.range().is_zero() },
            |b: &OhlcvBar| -> (d: Decimal)
                requires
                    over(minus(b.close.val(), b.low.val()), b.range_val()) is Some,
                ensures
                    d.val() == over(minus(b.close.val(), b.low.val()), b.range_val())
            { (b.close - b.low) / b.range() },
            Ghost(ranged_bars(bars@)),
            Ghost(close_positions(bars@)),
        )
    }

    /// Mean of `(high − open) / range` across bars — average fraction of the
    /// bar the price moved up from the open.
    ///
    /// Returns `None` if the slice is empty or every bar has zero range.
    pub fn avg_open_to_high_ratio(bars: &[OhlcvBar]) -> (r: Option<Decimal>)
        requires
            forall|i: int| 0 <= i < bars@.len() ==> (#[trigger] bars@[i]).range_val() is Some,
            tally(bars@.len() as int, ranged_bars(bars@)) > 0
                ==> mean_where(
                    bars@.len() as int,
                    ranged_bars(bars@),
                    open_to_high_shares(bars@),
                ) is Some,
        ensures
            yields(
                r,
                tally(bars@.len() as int, ranged_bars(bars@)) > 0,
                mean_where(bars@.len() as int, ranged_bars(bars@), open_to_high_shares(bars@)),
            ),
    {
        series::average(
            bars,
            |b: &OhlcvBar| -> (r: bool)
                requires
                    b.range_val() is Some,
                ensures
                    r == (!is_nought(b.range_val()))
            { !b.range().is_zero() },
            |b: &OhlcvBar| -> (d: Decimal)
                requires
                    over(minus(b.high.val(), b.open.val()), b.range_val()) is Some,
                ensures
                    d.val() == over(minus(b.high.val(), b.open.val()), b.range_val())
            { (b.high - b.open) / b.range() },
            Ghost(ranged_bars(bars@)),
            Ghost(open_to_high_shares(bars@)),
        )
    }

    /// Bar strength index: mean close-location value (CLV) across the slice.
    ///
    /// CLV for each bar is `(close − low − (high − close)) / range`, which
    /// is `+1` when close == high and `−1` when close == low. Bars with zero
    /// range are excluded.
    ///
    /// Returns `None` when no bars have non-zero range.
    pub fn bar_strength_index(bars: &[OhlcvBar]) -> (r: Option<Decimal>)
        requires
            forall|i: int| 0 <= i < bars@.len() ==> (#[trigger] bars@[i]).range_val() is Some,
            tally(bars@.len() as int, ranged_bars(bars@)) > 0
                ==> mean_where(bars@.len() as int, ranged_bars(bars@), close_locations(bars@)) is Some,
        ensures
            yields(
                r,
                tally(bars@.len() as int, ranged_bars(bars@)) > 0,
                mean_where(bars@.len() as int, ranged_bars(bars@), close_locations(bars@)),
            ),
    {
        series::average(
            bars,
            |b: &OhlcvBar| -> (r: bool)
                requires
                    b.range_val() is Some,
                ensures
                    r == (!is_nought(b.range_val()))
            { !b.range().is_zero() },
            |b: &OhlcvBar| -> (d: Decimal)
                requires
                    b.close_location_val() is Some,
                ensures
                    d.val() == b.close_location_val()
            { ((b.close - b.low) - (b.high - b.close)) / b.range() },
            Ghost(ranged_bars(bars@)),
            Ghost(close_locations(bars@)),
        )
    }

    /// Mean of `(close − low) / range` across bars.
    ///
    /// Indicates where each close lands within its bar's high-low range.
    /// Near 1.0 means closes consistently hug the high (bullish);
    /// near 0.0 means closes hug the low (bearish). Bars with zero range
    /// are excluded. Returns `None` if no bars have non-zero range.
    pub fn close_recovery_ratio(bars: &[OhlcvBar]) -> (r: Option<Decimal>)
        requires
            forall|i: int| 0 <= i < bars@.len() ==> (#[trigger] bars@[i]).range_val() is Some,
            tally(bars@.len() as int, ranged_bars(bars@)) > 0
                ==> mean_where(bars@.len() as int, ranged_bars(bars@), close_positions(bars@)) is Some,
        ensures
            yields(
                r,
                tally(bars@.len() as int, ranged_bars(bars@)) > 0,
                mean_where(bars@.len() as int, ranged_bars(bars@), close_positions(bars@)),
            ),
    {
        Self::close_to_range_position(bars)
    }

    /// Mean ratio of `volume / open` across bars.
    ///
    /// Normalises bar volume by the opening price level, useful for comparing
    /// activity across different price regimes. Bars with zero open are skipped.
    /// Returns `None` if no bars have a non-zero open.
    pub fn avg_open_volume_ratio(bars: &[OhlcvBar]) -> (r: Option<Decimal>)
        requires
            tally(bars@.len() as int, nonzero_opens(bars@)) > 0
                ==> mean_where(
                    bars@.len() as int,
                    nonzero_opens(bars@),
                    volumes_per_open(bars@),
                ) is Some,
        ensures
            yields(
                r,
                tally(bars@.len() as int, nonzero_opens(bars@)) > 0,
                mean_where(bars@.len() as int, nonzero_opens(bars@), volumes_per_open(bars@)),
            ),
    {
        series::average(
            bars,
            |b: &OhlcvBar| -> (r: bool)
                ensures
                    r == (b.open@ != 0)
            { !b.open.is_zero() },
            |b: &OhlcvBar| -> (d: Decimal)
                requires
                    over(b.volume.val(), b.open.val()) is Some,
                ensures
                    d.val() == over(b.volume.val(), b.open.val())
            { b.volume / b.open },
            Ghost(nonzero_opens(bars@)),
            Ghost(volumes_per_open(bars@)),
        )
    }

    /// Mean ratio of `high / low` across bars.
    ///
    /// A value near 1.0 means bars are narrow; higher values indicate wider ranges.
    /// Bars with zero low are skipped. Returns `None` if no bars have non-zero low.
    pub fn avg_high_low_ratio(bars: &[OhlcvBar]) -> (r: Option<Decimal>)
        requires
            tally(bars@.len() as int, nonzero_lows(bars@)) > 0
                ==> mean_where(bars@.len() as int, nonzero_lows(bars@), high_low_ratios(bars@)) is Some,
        ensures
            yields(
                r,
                tally(bars@.len() as int, nonzero_lows(bars@)) > 0,
                mean_where(bars@.len() as int, nonzero_lows(bars@), high_low_ratios(bars@)),
            ),
    {
        series::average(
            bars,
            |b: &OhlcvBar| -> (r: bool)
                ensures
                    r == (b.low@ != 0)
            { !b.low.is_zero() },
            |b: &OhlcvBar| -> (d: Decimal)
                requires
                    over(b.high.val(), b.low.val()) is Some,
                ensures
                    d.val() == over(b.high.val(), b.low.val())
            { b.high / b.low },
            Ghost(nonzero_lows(bars@)),
            Ghost(high_low_ratios(bars@)),
        )
    }

    /// Mean of `(close − low) / range` where range > 0; position of close within each bar's range.
    pub fn avg_close_position(bars: &[OhlcvBar]) -> (r: Option<Decimal>)
        requires
            forall|i: int| 0 <= i < bars@.len() ==> (#[trigger] bars@[i]).range_val() is Some,
            tally(bars@.len() as int, ranged_bars(bars@)) > 0
                ==> mean_where(bars@.len() as int, ranged_bars(bars@), close_positions(bars@)) is Some,
        ensures
            yields(
                r,
                tally(bars@.len() as int, ranged_bars(bars@)) > 0,
                mean_where(bars@.len() as int, ranged_bars(bars@), close_positions(bars@)),
            ),
    {
        Self::close_to_range_position(bars)
    }

    /// Mean of `total_wick / range` per bar (proportion of range that is wick); excludes doji bars.
    pub fn avg_wick_ratio(bars: &[OhlcvBar]) -> (r: Option<Decimal>)
        requires
            forall|i: int| 0 <= i < bars@.len() ==> (#[trigger] bars@[i]).range_val() is Some,
            tally(bars@.len() as int, ranged_bars(bars@)) > 0
                ==> mean_where(bars@.len() as int, ranged_bars(bars@), wick_shares(bars@)) is Some,
        ensures
            yields(
                r,
                tally(bars@.len() as int, ranged_bars(bars@)) > 0,
                mean_where(bars@.len() as int, ranged_bars(bars@), wick_shares(bars@)),
            ),
    {
        Self::mean_wick_ratio(bars)
    }

    /// Mean of `|open_i − close_{i-1}| / close_{i-1}` across bars from the second onward;
    /// measures gap size.
    pub fn open_gap_mean(bars: &[OhlcvBar]) -> (r: Option<Decimal>)
        requires
            tally(windows(bars@.len(), 2), nonzero_prior_closes(bars@)) > 0
                ==> mean_where(
                    windows(bars@.len(), 2),
                    nonzero_prior_closes(bars@),
                    relative_gap_sizes(bars@),
                ) is Some,
        ensures
            yields(
                r,
                tally(windows(bars@.len(), 2), nonzero_prior_closes(bars@)) > 0,
                mean_where(
                    windows(bars@.len(), 2),
                    nonzero_prior_closes(bars@),
                    relative_gap_sizes(bars@),
                ),
            ),
    {
        series::average_pairs(
            bars,
            |p: &OhlcvBar, b: &OhlcvBar| -> (r: bool)
                ensures
                    r == (p.close@ != 0)
            { !p.close.is_zero() },
            |p: &OhlcvBar, b: &OhlcvBar| -> (d: Decimal)
                requires
                    over(magnitude(minus(b.open.val(), p.close.val())), p.close.val()) is Some,
                ensures
                    d.val() == over(magnitude(minus(b.open.val(), p.close.val())), p.close.val())
            { (b.open - p.close).abs() / p.close },
            Ghost(nonzero_prior_closes(bars@)),
            Ghost(relative_gap_sizes(bars@)),
        )
    }

    /// Mean of `(high − low) / open` across bars — intrabar range relative to
    /// opening price.
    ///
    /// Returns `None` when no bars have a non-zero open.
    pub fn avg_range_to_open(bars: &[OhlcvBar]) -> (r: Option<Decimal>)
        requires
            tally(bars@.len() as int, nonzero_opens(bars@)) > 0
                ==> mean_where(
                    bars@.len() as int,
                    nonzero_opens(bars@),
                    ranges_per_open(bars@),
                ) is Some,
        ensures
            yields(
                r,
                tally(bars@.len() as int, nonzero_opens(bars@)) > 0,
                mean_where(bars@.len() as int, nonzero_opens(bars@), ranges_per_open(bars@)),
            ),
    {
        series::average(
            bars,
            |b: &OhlcvBar| -> (r: bool)
                ensures
                    r == (b.open@ != 0)
            { !b.open.is_zero() },
            |b: &OhlcvBar| -> (d: Decimal)
                requires
                    over(b.range_val(), b.open.val()) is Some,
                ensures
                    d.val() == over(b.range_val(), b.open.val())
            { b.range() / b.open },
            Ghost(nonzero_opens(bars@)),
            Ghost(ranges_per_open(bars@)),
        )
    }

    /// Mean of `body / range` per bar — average fraction of the range that
    /// is body. Bars with zero range are excluded.
    ///
    /// Returns `None` when no bars have non-zero range.
    pub fn avg_body_to_range(bars: &[OhlcvBar]) -> (r: Option<Decimal>)
        requires
            forall|i: int| 0 <= i < bars@.len() ==> (#[trigger] bars@[i]).range_val() is Some,
            tally(bars@.len() as int, ranged_bars(bars@)) > 0
                ==> mean_where(bars@.len() as int, ranged_bars(bars@), body_shares(bars@)) is Some,
        ensures
            yields(
                r,
                tally(bars@.len() as int, ranged_bars(bars@)) > 0,
                mean_where(bars@.len() as int, ranged_bars(bars@), body_shares(bars@)),
            ),
    {
        Self::mean_body_ratio(bars)
    }

    /// Mean of the upper-shadow-to-range ratio across bars.
    ///
    /// `upper_shadow / range` for each bar with non-zero range.
    /// Returns `None` when no bars have non-zero range.
    pub fn avg_upper_shadow_ratio(bars: &[OhlcvBar]) -> (r: Option<Decimal>)
        requires
            forall|i: int| 0 <= i < bars@.len() ==> (#[trigger] bars@[i]).range_val() is Some,
            tally(bars@.len() as int, ranged_bars(bars@)) > 0
                ==> mean_where(
                    bars@.len() as int,
                    ranged_bars(bars@),
                    upper_wick_shares(bars@),
                ) is Some,
        ensures
            yields(
                r,
                tally(bars@.len() as int, ranged_bars(bars@)) > 0,
                mean_where(bars@.len() as int, ranged_bars(bars@), upper_wick_shares(bars@)),
            ),
    {
        Self::tail_upper_fraction(bars)
    }

    /// Mean of `lower_shadow / range` per bar; excludes doji bars.
    pub fn avg_lower_shadow_ratio(bars: &[OhlcvBar]) -> (r: Option<Decimal>)
        requires
            forall|i: int| 0 <= i < bars@.len() ==> (#[trigger] bars@[i]).range_val() is Some,
            tally(bars@.len() as int, ranged_bars(bars@)) > 0
                ==> mean_where(
                    bars@.len() as int,
                    ranged_bars(bars@),
                    lower_wick_shares(bars@),
                ) is Some,
        ensures
            yields(
                r,
                tally(bars@.len() as int, ranged_bars(bars@)) > 0,
                mean_where(bars@.len() as int, ranged_bars(bars@), lower_wick_shares(bars@)),
            ),
    {
        Self::tail_lower_fraction(bars)
    }

    /// Mean of `(close - open) / (high - low)` per bar with non-zero range; signed body position.
    pub fn close_to_open_range_ratio(bars: &[OhlcvBar]) -> (r: Option<Decimal>)
        requires
            forall|i: int| 0 <= i < bars@.len() ==> (#[trigger] bars@[i]).range_val() is Some,
            tally(bars@.len() as int, ranged_bars(bars@)) > 0
                ==> mean_where(
                    bars@.len() as int,
                    ranged_bars(bars@),
                    signed_body_shares(bars@),
                ) is Some,
        ensures
            yields(
                r,
                tally(bars@.len() as int, ranged_bars(bars@)) > 0,
                mean_where(bars@.len() as int, ranged_bars(bars@), signed_body_shares(bars@)),
            ),
    {
        series::average(
            bars,
            |b: &OhlcvBar| -> (r: bool)
                requires
                    b.range_val() is Some,
                ensures
                    r == (!is_nought(b.range_val()))
            { !b.range().is_zero() },
            |b: &OhlcvBar| -> (d: Decimal)
                requires
                    over(b.price_change_val(), b.range_val()) is Some,
                ensures
                    d.val() == over(b.price_change_val(), b.range_val())
            { b.price_change() / b.range() },
            Ghost(ranged_bars(bars@)),
            Ghost(signed_body_shares(bars@)),
        )
    }

    /// Mean `|close − open| / range` across non-doji bars; how much of the range became
    /// directional body.
    pub fn avg_bar_efficiency(bars: &[OhlcvBar]) -> (r: Option<Decimal>)
        requires
            forall|i: int| 0 <= i < bars@.len() ==> (#[trigger] bars@[i]).range_val() is Some,
            tally(bars@.len() as int, ranged_bars(bars@)) > 0
                ==> mean_where(bars@.len() as int, ranged_bars(bars@), body_shares(bars@)) is Some,
        ensures
            yields(
                r,
                tally(bars@.len() as int, ranged_bars(bars@)) > 0,
                mean_where(bars@.len() as int, ranged_bars(bars@), body_shares(bars@)),
            ),
    {
        Self::mean_body_ratio(bars)
    }

    /// Mean ratio of lower wick to full bar range; zero-range bars are excluded.
    pub fn avg_lower_wick_to_range(bars: &[OhlcvBar]) -> (r: Option<Decimal>)
        requires
            forall|i: int| 0 <= i < bars@.len() ==> (#[trigger] bars@[i]).range_val() is Some,
            tally(bars@.len() as int, ranged_bars(bars@)) > 0
                ==> mean_where(
                    bars@.len() as int,
                    ranged_bars(bars@),
                    lower_wick_shares(bars@),
                ) is Some,
        ensures
            yields(
                r,
                tally(bars@.len() as int, ranged_bars(bars@)) > 0,
                mean_where(bars@.len() as int, ranged_bars(bars@), lower_wick_shares(bars@)),
            ),
    {
        Self::tail_lower_fraction(bars)
    }

    /// Mean of `(high - open) / range` across non-doji bars; how far price moved above the open.
    pub fn avg_high_above_open_ratio(bars: &[OhlcvBar]) -> (r: Option<Decimal>)
        requires
            forall|i: int| 0 <= i < bars@.len() ==> (#[trigger] bars@[i]).range_val() is Some,
            tally(bars@.len() as int, ranged_bars(bars@)) > 0
                ==> mean_where(
                    bars@.len() as int,
                    ranged_bars(bars@),
                    open_to_high_shares(bars@),
                ) is Some,
        ensures
            yields(
                r,
                tally(bars@.len() as int, ranged_bars(bars@)) > 0,
                mean_where(bars@.len() as int, ranged_bars(bars@), open_to_high_shares(bars@)),
            ),
    {
        Self::avg_open_to_high_ratio(bars)
    }

    /// Mean wick symmetry: average of min(upper_wick, lower_wick) / max(upper_wick, lower_wick).
    /// A value near 1 means wicks are balanced; near 0 means heavily one-sided.
    /// Bars with both wicks zero are excluded.
    pub fn avg_wick_symmetry(bars: &[OhlcvBar]) -> (r: Option<Decimal>)
        requires
            forall|i: int|
                0 <= i < bars@.len()
                    ==> larger(
                        (#[trigger] bars@[i]).wick_upper_val(),
                        bars@[i].wick_lower_val(),
                    ) is Some,
            tally(bars@.len() as int, wicked_bars(bars@)) > 0
                ==> mean_where(bars@.len() as int, wicked_bars(bars@), wick_symmetries(bars@)) is Some,
        ensures
            yields(
                r,
                tally(bars@.len() as int, wicked_bars(bars@)) > 0,
                mean_where(bars@.len() as int, wicked_bars(bars@), wick_symmetries(bars@)),
            ),
    {
        series::average(
            bars,
            |b: &OhlcvBar| -> (r: bool)
                requires
                    larger(b.wick_upper_val(), b.wick_lower_val()) is Some,
                ensures
                    r == (!is_nought(larger(b.wick_upper_val(), b.wick_lower_val())))
            { !b.wick_upper().max(b.wick_lower()).is_zero() },
            |b: &OhlcvBar| -> (d: Decimal)
                requires
                    over(
                        smaller(b.wick_upper_val(), b.wick_lower_val()),
                        larger(b.wick_upper_val(), b.wick_lower_val()),
                    ) is Some,
                ensures
                    d.val()
                        == over(
                            smaller(b.wick_upper_val(), b.wick_lower_val()),
                            larger(b.wick_upper_val(), b.wick_lower_val()),
                        )
            { b.wick_upper().min(b.wick_lower()) / b.wick_upper().max(b.wick_lower()) },
            Ghost(wicked_bars(bars@)),
            Ghost(wick_symmetries(bars@)),
        )
    }

    /// Mean price range of a bar expressed as a fraction of its open price, over
    /// the bars whose open is not zero.
    ///
    /// Returns `None` if there is no such bar.
    pub fn avg_range_pct_of_open(bars: &[OhlcvBar]) -> (r: Option<Decimal>)
        requires
            tally(bars@.len() as int, nonzero_opens(bars@)) > 0
                ==> mean_where(
                    bars@.len() as int,
                    nonzero_opens(bars@),
                    ranges_per_open(bars@),
                ) is Some,
        ensures
            yields(
                r,
                tally(bars@.len() as int, nonzero_opens(bars@)) > 0,
                mean_where(bars@.len() as int, nonzero_opens(bars@), ranges_per_open(bars@)),
            ),
    {
        Self::avg_range_to_open(bars)
    }

    /// Mean of `high / low` ratios across bars (bars with zero `low` are skipped).
    pub fn mean_high_low_ratio(bars: &[OhlcvBar]) -> (r: Option<Decimal>)
        requires
            tally(bars@.len() as int, nonzero_lows(bars@)) > 0
                ==> mean_where(bars@.len() as int, nonzero_lows(bars@), high_low_ratios(bars@)) is Some,
        ensures
            yields(
                r,
                tally(bars@.len() as int, nonzero_lows(bars@)) > 0,
                mean_where(bars@.len() as int, nonzero_lows(bars@), high_low_ratios(bars@)),
            ),
    {
        Self::avg_high_low_ratio(bars)
    }

    /// Mean upper shadow as a fraction of total bar range.
    /// Upper shadow = high − max(open, close).  Bars with zero range are excluded.
    pub fn avg_upper_shadow_fraction(bars: &[OhlcvBar]) -> (r: Option<Decimal>)
        requires
            tally(bars@.len() as int, upright_bars(bars@)) > 0
                ==> mean_where(
                    bars@.len() as int,
                    upright_bars(bars@),
                    upper_wick_shares(bars@),
                ) is Some,
        ensures
            yields(
                r,
                tally(bars@.len() as int, upright_bars(bars@)) > 0,
                mean_where(bars@.len() as int, upright_bars(bars@), upper_wick_shares(bars@)),
            ),
    {
        series::average(
            bars,
            |b: &OhlcvBar| -> (r: bool)
                ensures
                    r == (b.high@ > b.low@)
            { b.high > b.low },
            |b: &OhlcvBar| -> (d: Decimal)
                requires
                    over(b.wick_upper_val(), b.range_val()) is Some,
                ensures
                    d.val() == over(b.wick_upper_val(), b.range_val())
            { b.wick_upper() / b.range() },
            Ghost(upright_bars(bars@)),
            Ghost(upper_wick_shares(bars@)),
        )
    }

    /// Symmetry of upper vs lower shadows: `1 − |upper_shadow − lower_shadow| / range`.
    ///
    /// Returns `None` for an empty slice or when all bars have zero range.
    pub fn tail_symmetry(bars: &[OhlcvBar]) -> (r: Option<Decimal>)
        requires
            tally(bars@.len() as int, upright_bars(bars@)) > 0
                ==> mean_where(bars@.len() as int, upright_bars(bars@), wick_balances(bars@)) is Some,
        ensures
            yields(
                r,
                tally(bars@.len() as int, upright_bars(bars@)) > 0,
                mean_where(bars@.len() as int, upright_bars(bars@), wick_balances(bars@)),
            ),
    {
        series::average(
            bars,
            |b: &OhlcvBar| -> (r: bool)
                ensures
                    r == (b.high@ > b.low@)
            { b.high > b.low },
            |b: &OhlcvBar| -> (d: Decimal)
                requires
                    minus(
                        whole(1),
                        over(magnitude(minus(b.wick_upper_val(), b.wick_lower_val())), b.range_val()),
                    ) is Some,
                ensures
                    d.val()
                        == minus(
                            whole(1),
                            over(magnitude(minus(b.wick_upper_val(), b.wick_lower_val())), b.range_val()),
                        )
            { Decimal::whole(1) - (b.wick_upper() - b.wick_lower()).abs() / b.range() },
            Ghost(upright_bars(bars@)),
            Ghost(wick_balances(bars@)),
        )
    }

    /// Mean body-to-range ratio: `mean(|close − open| / (high − low))`.
    ///
    /// Bars with zero range are excluded. Returns `None` if no valid bars exist.
    pub fn mean_bar_efficiency(bars: &[OhlcvBar]) -> (r: Option<Decimal>)
        requires
            tally(bars@.len() as int, upright_bars(bars@)) > 0
                ==> mean_where(bars@.len() as int, upright_bars(bars@), body_shares(bars@)) is Some,
        ensures
            yields(
                r,
                tally(bars@.len() as int, upright_bars(bars@)) > 0,
                mean_where(bars@.len() as int, upright_bars(bars@), body_shares(bars@)),
            ),
    {
        series::average(
            bars,
            |b: &OhlcvBar| -> (r: bool)
                ensures
                    r == (b.high@ > b.low@)
            { b.high > b.low },
            |b: &OhlcvBar| -> (d: Decimal)
                requires
                    over(b.body_val(), b.range_val()) is Some,
                ensures
                    d.val() == over(b.body_val(), b.range_val())
            { b.body() / b.range() },
            Ghost(upright_bars(bars@)),
            Ghost(body_shares(bars@)),
        )
    }

    /// Mean relative gap size: `mean(|open[i] − close[i-1]| / close[i-1])` across
    /// consecutive bar pairs.
    ///
    /// Returns `None` for fewer than 2 bars or when all prev-closes are zero.
    pub fn open_gap_ratio(bars: &[OhlcvBar]) -> (r: Option<Decimal>)
        requires
            tally(windows(bars@.len(), 2), nonzero_prior_closes(bars@)) > 0
                ==> mean_where(
                    windows(bars@.len(), 2),
                    nonzero_prior_closes(bars@),
                    relative_gap_sizes(bars@),
                ) is Some,
        ensures
            yields(
                r,
                tally(windows(bars@.len(), 2), nonzero_prior_closes(bars@)) > 0,
                mean_where(
                    windows(bars@.len(), 2),
                    nonzero_prior_closes(bars@),
                    relative_gap_sizes(bars@),
                ),
            ),
    {
        Self::open_gap_mean(bars)
    }

    /// Mean candle symmetry: `mean(1 − |body| / range)` for bars with nonzero range.
    ///
    /// A value close to 1 means most bars have small bodies (doji-like); close to 0
    /// means full-body bars. Returns `None` if no valid bars exist.
    pub fn candle_symmetry_score(bars: &[OhlcvBar]) -> (r: Option<Decimal>)
        requires
            tally(bars@.len() as int, upright_bars(bars@)) > 0
                ==> mean_where(bars@.len() as int, upright_bars(bars@), body_slacks(bars@)) is Some,
        ensures
            yields(
                r,
                tally(bars@.len() as int, upright_bars(bars@)) > 0,
                mean_where(bars@.len() as int, upright_bars(bars@), body_slacks(bars@)),
            ),
    {
        series::average(
            bars,
            |b: &OhlcvBar| -> (r: bool)
                ensures
                    r == (b.high@ > b.low@)
            { b.high > b.low },
            |b: &OhlcvBar| -> (d: Decimal)
                requires
                    minus(whole(1), over(b.body_val(), b.range_val())) is Some,
                ensures
                    d.val() == minus(whole(1), over(b.body_val(), b.range_val()))
            { Decimal::whole(1) - b.body() / b.range() },
            Ghost(upright_bars(bars@)),
            Ghost(body_slacks(bars@)),
        )
    }

    /// Mean of `(high − close) / (high − low)` — upper shadow as fraction of range.
    ///
    /// The same as `close_to_high_mean` for valid bars, named for discovery.
    /// Bars with zero range are excluded. Returns `None` if no valid bars exist.
    pub fn mean_upper_shadow_pct(bars: &[OhlcvBar]) -> (r: Option<Decimal>)
        requires
            tally(bars@.len() as int, upright_bars(bars@)) > 0
                ==> mean_where(
                    bars@.len() as int,
                    upright_bars(bars@),
                    close_to_high_shares(bars@),
                ) is Some,
        ensures
            yields(
                r,
                tally(bars@.len() as int, upright_bars(bars@)) > 0,
                mean_where(bars@.len() as int, upright_bars(bars@), close_to_high_shares(bars@)),
            ),
    {
        series::average(
            bars,
            |b: &OhlcvBar| -> (r: bool)
                ensures
                    r == (b.high@ > b.low@)
            { b.high > b.low },
            |b: &OhlcvBar| -> (d: Decimal)
                requires
                    over(minus(b.high.val(), b.close.val()), b.range_val()) is Some,
                ensures
                    d.val() == over(minus(b.high.val(), b.close.val()), b.range_val())
            { (b.high - b.close) / b.range() },
            Ghost(upright_bars(bars@)),
            Ghost(close_to_high_shares(bars@)),
        )
    }

    /// Mean ratio of total wick length to body size: `(upper+lower) / |close−open|`.
    ///
    /// Bars with zero body (doji) are excluded. Returns `None` if no valid bars exist.
    pub fn avg_wick_to_body_ratio(bars: &[OhlcvBar]) -> (r: Option<Decimal>)
        requires
            tally(bars@.len() as int, moving_bars(bars@)) > 0
                ==> mean_where(bars@.len() as int, moving_bars(bars@), wicks_per_body(bars@)) is Some,
        ensures
            yields(
                r,
                tally(bars@.len() as int, moving_bars(bars@)) > 0,
                mean_where(bars@.len() as int, moving_bars(bars@), wicks_per_body(bars@)),
            ),
    {
        series::average(
            bars,
            |b: &OhlcvBar| -> (r: bool)
                ensures
                    r == (b.close@ != b.open@)
            { b.close != b.open },
            |b: &OhlcvBar| -> (d: Decimal)
                requires
                    over(plus(b.wick_upper_val(), b.wick_lower_val()), b.body_val()) is Some,
                ensures
                    d.val() == over(plus(b.wick_upper_val(), b.wick_lower_val()), b.body_val())
            { (b.wick_upper() + b.wick_lower()) / b.body() },
            Ghost(moving_bars(bars@)),
            Ghost(wicks_per_body(bars@)),
        )
    }

    /// Average of `volume / (high − low)` per bar; bars with zero range are excluded.
    /// Returns `None` if the slice is empty or all bars have zero range.
    pub fn avg_volume_per_range(bars: &[OhlcvBar]) -> (r: Option<Decimal>)
        requires
            forall|i: int| 0 <= i < bars@.len() ==> (#[trigger] bars@[i]).range_val() is Some,
            tally(bars@.len() as int, ranged_bars(bars@)) > 0
                ==> mean_where(
                    bars@.len() as int,
                    ranged_bars(bars@),
                    volumes_per_range(bars@),
                ) is Some,
        ensures
            yields(
                r,
                tally(bars@.len() as int, ranged_bars(bars@)) > 0,
                mean_where(bars@.len() as int, ranged_bars(bars@), volumes_per_range(bars@)),
            ),
    {
        Self::volume_per_range(bars)
    }

    /// Mean of `(close − low) / (high − low)` per bar, excluding zero-range bars.
    /// Returns `None` if the slice is empty or all bars have zero range.
    pub fn mean_close_to_high_ratio(bars: &[OhlcvBar]) -> (r: Option<Decimal>)
        requires
            forall|i: int| 0 <= i < bars@.len() ==> (#[trigger] bars@[i]).range_val() is Some,
            tally(bars@.len() as int, ranged_bars(bars@)) > 0
                ==> mean_where(bars@.len() as int, ranged_bars(bars@), close_positions(bars@)) is Some,
        ensures
            yields(
                r,
                tally(bars@.len() as int, ranged_bars(bars@)) > 0,
                mean_where(bars@.len() as int, ranged_bars(bars@), close_positions(bars@)),
            ),
    {
        Self::close_to_range_position(bars)
    }

    /// Mean signed `(close − open) / open` return per bar.
    /// Bars with zero open are excluded. Returns `None` if no valid bars exist.
    pub fn open_to_close_momentum(bars: &[OhlcvBar]) -> (r: Option<Decimal>)
        requires
            tally(bars@.len() as int, nonzero_opens(bars@)) > 0
                ==> mean_where(bars@.len() as int, nonzero_opens(bars@), bar_returns(bars@)) is Some,
        ensures
            yields(
                r,
                tally(bars@.len() as int, nonzero_opens(bars@)) > 0,
                mean_where(bars@.len() as int, nonzero_opens(bars@), bar_returns(bars@)),
            ),
    {
        series::average(
            bars,
            |b: &OhlcvBar| -> (r: bool)
                ensures
                    r == (b.open@ != 0)
            { !b.open.is_zero() },
            |b: &OhlcvBar| -> (d: Decimal)
                requires
                    over(b.price_change_val(), b.open.val()) is Some,
                ensures
                    d.val() == over(b.price_change_val(), b.open.val())
            { b.price_change() / b.open },
            Ghost(nonzero_opens(bars@)),
            Ghost(bar_returns(bars@)),
        )
    }

    /// Fraction of each bar's range that is accounted for by shadows (wicks)
    /// rather than the body, averaged across bars with nonzero range.
    /// Returns `None` if no valid bars exist.
    pub fn shadow_dominance(bars: &[OhlcvBar]) -> (r: Option<Decimal>)
        requires
            forall|i: int| 0 <= i < bars@.len() ==> (#[trigger] bars@[i]).range_val() is Some,
            tally(bars@.len() as int, ranged_bars(bars@)) > 0
                ==> mean_where(bars@.len() as int, ranged_bars(bars@), shadow_shares(bars@)) is Some,
        ensures
            yields(
                r,
                tally(bars@.len() as int, ranged_bars(bars@)) > 0,
                mean_where(bars@.len() as int, ranged_bars(bars@), shadow_shares(bars@)),
            ),
    {
        series::average(
            bars,
            |b: &OhlcvBar| -> (r: bool)
                requires
                    b.range_val() is Some,
                ensures
                    r == (!is_nought(b.range_val()))
            { !b.range().is_zero() },
            |b: &OhlcvBar| -> (d: Decimal)
                requires
                    over(minus(b.range_val(), b.body_val()), b.range_val()) is Some,
                ensures
                    d.val() == over(minus(b.range_val(), b.body_val()), b.range_val())
            { (b.range() - b.body()) / b.range() },
            Ghost(ranged_bars(bars@)),
            Ghost(shadow_shares(bars@)),
        )
    }

    /// Mean true range: average of `max(high−low, |high−prev_close|, |low−prev_close|)`.
    /// Returns `None` for fewer than 2 bars.
    pub fn true_range_mean(bars: &[OhlcvBar]) -> (r: Option<Decimal>)
        requires
            bars@.len() >= 2 ==> mean(windows(bars@.len(), 2), true_ranges(bars@)) is Some,
        ensures
            yields(r, bars@.len() >= 2, mean(windows(bars@.len(), 2), true_ranges(bars@))),
    {
        if bars.len() < 2 {
            return None;
        }
        let sum = series::add_up_pairs(
            bars,
            |p: &OhlcvBar, b: &OhlcvBar| -> (d: Decimal)
                requires
                    b.true_range_val(p.close.num()) is Some,
                ensures
                    d.val() == b.true_range_val(p.close.num())
            { b.true_range(p.close) },
            Ghost(true_ranges(bars@)),
        );
        Some(sum / Decimal::count((bars.len() - 1) as u64))
    }

    /// Mean close-to-open gap as a fraction of prior close.
    /// Returns `None` for fewer than 2 bars.
    pub fn close_to_open_gap(bars: &[OhlcvBar]) -> (r: Option<Decimal>)
        requires
            tally(windows(bars@.len(), 2), nonzero_prior_closes(bars@)) > 0
                ==> mean_where(
                    windows(bars@.len(), 2),
                    nonzero_prior_closes(bars@),
                    relative_gaps(bars@),
                ) is Some,
        ensures
            yields(
                r,
                tally(windows(bars@.len(), 2), nonzero_prior_closes(bars@)) > 0,
                mean_where(
                    windows(bars@.len(), 2),
                    nonzero_prior_closes(bars@),
                    relative_gaps(bars@),
                ),
            ),
    {
        series::average_pairs(
            bars,
            |p: &OhlcvBar, b: &OhlcvBar| -> (r: bool)
                ensures
                    r == (p.close@ != 0)
            { !p.close.is_zero() },
            |p: &OhlcvBar, b: &OhlcvBar| -> (d: Decimal)
                requires
                    over(minus(b.open.val(), p.close.val()), p.close.val()) is Some,
                ensures
                    d.val() == over(minus(b.open.val(), p.close.val()), p.close.val())
            { (b.open - p.close) / p.close },
            Ghost(nonzero_prior_closes(bars@)),
            Ghost(relative_gaps(bars@)),
        )
    }

    /// Mean upper shadow as a fraction of the bar range, excluding zero-range bars.
    /// Returns `None` for an empty slice or all zero-range bars.
    pub fn avg_upper_shadow(bars: &[OhlcvBar]) -> (r: Option<Decimal>)
        requires
            forall|i: int| 0 <= i < bars@.len() ==> (#[trigger] bars@[i]).range_val() is Some,
            tally(bars@.len() as int, ranged_bars(bars@)) > 0
                ==> mean_where(
                    bars@.len() as int,
                    ranged_bars(bars@),
                    upper_wick_shares(bars@),
                ) is Some,
        ensures
            yields(
                r,
                tally(bars@.len() as int, ranged_bars(bars@)) > 0,
                mean_where(bars@.len() as int, ranged_bars(bars@), upper_wick_shares(bars@)),
            ),
    {
        Self::tail_upper_fraction(bars)
    }

    /// Mean `|body| / range` per bar, excluding zero-range bars.
    /// Returns `None` for an empty slice or all zero-range bars.
    pub fn body_to_range_mean(bars: &[OhlcvBar]) -> (r: Option<Decimal>)
        requires
            forall|i: int| 0 <= i < bars@.len() ==> (#[trigger] bars@[i]).range_val() is Some,
            tally(bars@.len() as int, ranged_bars(bars@)) > 0
                ==> mean_where(bars@.len() as int, ranged_bars(bars@), body_shares(bars@)) is Some,
        ensures
            yields(
                r,
                tally(bars@.len() as int, ranged_bars(bars@)) > 0,
                mean_where(bars@.len() as int, ranged_bars(bars@), body_shares(bars@)),
            ),
    {
        Self::mean_body_ratio(bars)
    }

    /// Mean price range `(high − low)` across all bars.
    /// Returns `None` for an empty slice.
    pub fn bar_range_mean(bars: &[OhlcvBar]) -> (r: Option<Decimal>)
        requires
            bars@.len() > 0 ==> mean(bars@.len() as int, ranges(bars@)) is Some,
        ensures
            yields(r, bars@.len() > 0, mean(bars@.len() as int, ranges(bars@))),
    {
        if bars.len() == 0 {
            return None;
        }
        let sum = series::add_up(
            bars,
            |b: &OhlcvBar| -> (d: Decimal)
                requires
                    b.range_val() is Some,
                ensures
                    d.val() == b.range_val()
            { b.range() },
            Ghost(ranges(bars@)),
        );
        Some(sum / Decimal::count(bars.len() as u64))
    }

    /// Mean of `(close − low) / (high − low)` — how close to the high bars
    /// typically close. Excludes zero-range bars.
    /// Returns `None` for an empty slice or all zero-range bars.
    pub fn close_proximity(bars: &[OhlcvBar]) -> (r: Option<Decimal>)
        requires
            forall|i: int| 0 <= i < bars@.len() ==> (#[trigger] bars@[i]).range_val() is Some,
            tally(bars@.len() as int, ranged_bars(bars@)) > 0
                ==> mean_where(bars@.len() as int, ranged_bars(bars@), close_positions(bars@)) is Some,
        ensures
            yields(
                r,
                tally(bars@.len() as int, ranged_bars(bars@)) > 0,
                mean_where(bars@.len() as int, ranged_bars(bars@), close_positions(bars@)),
            ),
    {
        Self::close_to_range_position(bars)
    }

    /// Mean lower shadow as a fraction of bar range, excluding zero-range bars.
    /// Returns `None` for an empty slice or all zero-range bars.
    pub fn avg_lower_shadow(bars: &[OhlcvBar]) -> (r: Option<Decimal>)
        requires
            forall|i: int| 0 <= i < bars@.len() ==> (#[trigger] bars@[i]).range_val() is Some,
            tally(bars@.len() as int, ranged_bars(bars@)) > 0
                ==> mean_where(
                    bars@.len() as int,
                    ranged_bars(bars@),
                    lower_wick_shares(bars@),
                ) is Some,
        ensures
            yields(
                r,
                tally(bars@.len() as int, ranged_bars(bars@)) > 0,
                mean_where(bars@.len() as int, ranged_bars(bars@), lower_wick_shares(bars@)),
            ),
    {
        Self::tail_lower_fraction(bars)
    }

    /// Mean of `(open − low) / (high − low)` per bar, measuring how far from
    /// the low the bar opened. Excludes zero-range bars.
    /// Returns `None` for an empty slice or all zero-range bars.
    pub fn open_range_ratio(bars: &[OhlcvBar]) -> (r: Option<Decimal>)
        requires
            forall|i: int| 0 <= i < bars@.len() ==> (#[trigger] bars@[i]).range_val() is Some,
            tally(bars@.len() as int, ranged_bars(bars@)) > 0
                ==> mean_where(bars@.len() as int, ranged_bars(bars@), open_positions(bars@)) is Some,
        ensures
            yields(
                r,
                tally(bars@.len() as int, ranged_bars(bars@)) > 0,
                mean_where(bars@.len() as int, ranged_bars(bars@), open_positions(bars@)),
            ),
    {
        series::average(
            bars,
            |b: &OhlcvBar| -> (r: bool)
                requires
                    b.range_val() is Some,
                ensures
                    r == (!is_nought(b.range_val()))
            { !b.range().is_zero() },
            |b: &OhlcvBar| -> (d: Decimal)
                requires
                    over(minus(b.open.val(), b.low.val()), b.range_val()) is Some,
                ensures
                    d.val() == over(minus(b.open.val(), b.low.val()), b.range_val())
            { (b.open - b.low) / b.range() },
            Ghost(ranged_bars(bars@)),
            Ghost(open_positions(bars@)),
        )
    }

    /// Volume per unit of price range: `volume / (high − low)`, averaged across bars.
    /// Excludes zero-range bars. Returns `None` for empty slice or all zero-range bars.
    pub fn volume_normalized_range(bars: &[OhlcvBar]) -> (r: Option<Decimal>)
        requires
            forall|i: int| 0 <= i < bars@.len() ==> (#[trigger] bars@[i]).range_val() is Some,
            tally(bars@.len() as int, ranged_bars(bars@)) > 0
                ==> mean_where(
                    bars@.len() as int,
                    ranged_bars(bars@),
                    volumes_per_range(bars@),
                ) is Some,
        ensures
            yields(
                r,
                tally(bars@.len() as int, ranged_bars(bars@)) > 0,
                mean_where(bars@.len() as int, ranged_bars(bars@), volumes_per_range(bars@)),
            ),
    {
        Self::volume_per_range(bars)
    }

    /// Mean of `(close − midpoint) / (high − low)` where `midpoint = (high + low) / 2`.
    /// Excludes zero-range bars. Returns `None` for empty slice or all zero-range bars.
    pub fn close_vs_midpoint(bars: &[OhlcvBar]) -> (r: Option<Decimal>)
        requires
            forall|i: int| 0 <= i < bars@.len() ==> (#[trigger] bars@[i]).range_val() is Some,
            tally(bars@.len() as int, ranged_bars(bars@)) > 0
                ==> mean_where(bars@.len() as int, ranged_bars(bars@), midpoint_offsets(bars@)) is Some,
        ensures
            yields(
                r,
                tally(bars@.len() as int, ranged_bars(bars@)) > 0,
                mean_where(bars@.len() as int, ranged_bars(bars@), midpoint_offsets(bars@)),
            ),
    {
        series::average(
            bars,
            |b: &OhlcvBar| -> (r: bool)
                requires
                    b.range_val() is Some,
                ensures
                    r == (!is_nought(b.range_val()))
            { !b.range().is_zero() },
            |b: &OhlcvBar| -> (d: Decimal)
                requires
                    over(minus(b.close.val(), b.median_price_val()), b.range_val()) is Some,
                ensures
                    d.val() == over(minus(b.close.val(), b.median_price_val()), b.range_val())
            { (b.close - b.median_price()) / b.range() },
            Ghost(ranged_bars(bars@)),
            Ghost(midpoint_offsets(bars@)),
        )
    }

    /// Mean of `high / low` ratio per bar, excluding zero-low bars.
    /// Returns `None` for an empty slice or all zero-low bars.
    pub fn high_low_ratio(bars: &[OhlcvBar]) -> (r: Option<Decimal>)
        requires
            tally(bars@.len() as int, nonzero_lows(bars@)) > 0
                ==> mean_where(bars@.len() as int, nonzero_lows(bars@), high_low_ratios(bars@)) is Some,
        ensures
            yields(
                r,
                tally(bars@.len() as int, nonzero_lows(bars@)) > 0,
                mean_where(bars@.len() as int, nonzero_lows(bars@), high_low_ratios(bars@)),
            ),
    {
        Self::avg_high_low_ratio(bars)
    }

    /// Mean signed close-to-close change: `mean(close[i] − close[i-1])`.
    /// Returns `None` for fewer than 2 bars.
    pub fn close_change_mean(bars: &[OhlcvBar]) -> (r: Option<Decimal>)
        requires
            bars@.len() >= 2 ==> mean(windows(bars@.len(), 2), close_changes(bars@)) is Some,
        ensures
            yields(r, bars@.len() >= 2, mean(windows(bars@.len(), 2), close_changes(bars@))),
    {
        if bars.len() < 2 {
            return None;
        }
        let sum = series::add_up_pairs(
            bars,
            |p: &OhlcvBar, b: &OhlcvBar| -> (d: Decimal)
                requires
                    minus(b.close.val(), p.close.val()) is Some,
                ensures
                    d.val() == minus(b.close.val(), p.close.val())
            { b.close - p.close },
            Ghost(close_changes(bars@)),
        );
        Some(sum / Decimal::count((bars.len() - 1) as u64))
    }

    /// Mean of `(high - open) / (high - low)` across bars with non-zero range.
    /// Returns `None` for an empty slice or no bars with non-zero range.
    pub fn open_high_distance(bars: &[OhlcvBar]) -> (r: Option<Decimal>)
        requires
            forall|i: int| 0 <= i < bars@.len() ==> (#[trigger] bars@[i]).range_val() is Some,
            tally(bars@.len() as int, ranged_bars(bars@)) > 0
                ==> mean_where(
                    bars@.len() as int,
                    ranged_bars(bars@),
                    open_to_high_shares(bars@),
                ) is Some,
        ensures
            yields(
                r,
                tally(bars@.len() as int, ranged_bars(bars@)) > 0,
                mean_where(bars@.len() as int, ranged_bars(bars@), open_to_high_shares(bars@)),
            ),
    {
        Self::avg_open_to_high_ratio(bars)
    }

    /// Mean upper-to-lower shadow ratio across bars where both shadows are non-zero.
    /// Upper shadow = `high - max(open, close)`, lower shadow = `min(open, close) - low`.
    /// Returns `None` for an empty slice or no qualifying bars.
    pub fn shadow_ratio_score(bars: &[OhlcvBar]) -> (r: Option<Decimal>)
        requires
            forall|i: int| 0 <= i < bars@.len() ==> (#[trigger] bars@[i]).wick_upper_val() is Some,
            forall|i: int|
                0 <= i < bars@.len()
                    ==> !is_nought((#[trigger] bars@[i]).wick_upper_val())
                    ==> bars@[i].wick_lower_val() is Some,
            tally(bars@.len() as int, two_wick_bars(bars@)) > 0
                ==> mean_where(bars@.len() as int, two_wick_bars(bars@), wick_ratios(bars@)) is Some,
        ensures
            yields(
                r,
                tally(bars@.len() as int, two_wick_bars(bars@)) > 0,
                mean_where(bars@.len() as int, two_wick_bars(bars@), wick_ratios(bars@)),
            ),
    {
        series::average(
            bars,
            |b: &OhlcvBar| -> (r: bool)
                requires
                    b.wick_upper_val() is Some,
                    !is_nought(b.wick_upper_val()) ==> b.wick_lower_val() is Some,
                ensures
                    r == (!is_nought(b.wick_upper_val()) && !is_nought(b.wick_lower_val()))
            { !b.wick_upper().is_zero() && !b.wick_lower().is_zero() },
            |b: &OhlcvBar| -> (d: Decimal)
                requires
                    over(b.wick_upper_val(), b.wick_lower_val()) is Some,
                ensures
                    d.val() == over(b.wick_upper_val(), b.wick_lower_val())
            { b.wick_upper() / b.wick_lower() },
            Ghost(two_wick_bars(bars@)),
            Ghost(wick_ratios(bars@)),
        )
    }

    /// Mean ratio of candle body size to bar volume across bars with non-zero volume.
    /// Body = |close - open|. Returns `None` for an empty slice.
    pub fn avg_body_to_volume(bars: &[OhlcvBar]) -> (r: Option<Decimal>)
        requires
            tally(bars@.len() as int, nonzero_volumes(bars@)) > 0
                ==> mean_where(
                    bars@.len() as int,
                    nonzero_volumes(bars@),
                    bodies_per_volume(bars@),
                ) is Some,
        ensures
            yields(
                r,
                tally(bars@.len() as int, nonzero_volumes(bars@)) > 0,
                mean_where(bars@.len() as int, nonzero_volumes(bars@), bodies_per_volume(bars@)),
            ),
    {
        series::average(
            bars,
            |b: &OhlcvBar| -> (r: bool)
                ensures
                    r == (b.volume@ != 0)
            { !b.volume.is_zero() },
            |b: &OhlcvBar| -> (d: Decimal)
                requires
                    over(b.body_val(), b.volume.val()) is Some,
                ensures
                    d.val() == over(b.body_val(), b.volume.val())
            { b.body() / b.volume },
            Ghost(nonzero_volumes(bars@)),
            Ghost(bodies_per_volume(bars@)),
        )
    }

    /// Mean of `(high - close) / (high - low)` across bars with non-zero range.
    /// Measures how far close is from the high on average.
    /// Returns `None` for an empty slice or no bars with non-zero range.
    pub fn close_to_high_mean(bars: &[OhlcvBar]) -> (r: Option<Decimal>)
        requires
            forall|i: int| 0 <= i < bars@.len() ==> (#[trigger] bars@[i]).range_val() is Some,
            tally(bars@.len() as int, ranged_bars(bars@)) > 0
                ==> mean_where(
                    bars@.len() as int,
                    ranged_bars(bars@),
                    close_to_high_shares(bars@),
                ) is Some,
        ensures
            yields(
                r,
                tally(bars@.len() as int, ranged_bars(bars@)) > 0,
                mean_where(bars@.len() as int, ranged_bars(bars@), close_to_high_shares(bars@)),
            ),
    {
        series::average(
            bars,
            |b: &OhlcvBar| -> (r: bool)
                requires
                    b.range_val() is Some,
                ensures
                    r == (!is_nought(b.range_val()))
            { !b.range().is_zero() },
            |b: &OhlcvBar| -> (d: Decimal)
                requires
                    over(minus(b.high.val(), b.close.val()), b.range_val()) is Some,
                ensures
                    d.val() == over(minus(b.high.val(), b.close.val()), b.range_val())
            { (b.high - b.close) / b.range() },
            Ghost(ranged_bars(bars@)),
            Ghost(close_to_high_shares(bars@)),
        )
    }

    /// Mean of `(high - open) / high` across bars with non-zero high.
    /// Returns `None` for an empty slice.
    pub fn open_to_high_ratio(bars: &[OhlcvBar]) -> (r: Option<Decimal>)
        requires
            tally(bars@.len() as int, nonzero_highs(bars@)) > 0
                ==> mean_where(
                    bars@.len() as int,
                    nonzero_highs(bars@),
                    open_to_high_ratios(bars@),
                ) is Some,
        ensures
            yields(
                r,
                tally(bars@.len() as int, nonzero_highs(bars@)) > 0,
                mean_where(bars@.len() as int, nonzero_highs(bars@), open_to_high_ratios(bars@)),
            ),
    {
        series::average(
            bars,
            |b: &OhlcvBar| -> (r: bool)
                ensures
                    r == (b.high@ != 0)
            { !b.high.is_zero() },
            |b: &OhlcvBar| -> (d: Decimal)
                requires
                    over(minus(b.high.val(), b.open.val()), b.high.val()) is Some,
                ensures
                    d.val() == over(minus(b.high.val(), b.open.val()), b.high.val())
            { (b.high - b.open) / b.high },
            Ghost(nonzero_highs(bars@)),
            Ghost(open_to_high_ratios(bars@)),
        )
    }

    /// Mean position of close within the bar's high-low range: `(close - low) / (high - low)`.
    /// Returns `None` for an empty slice or no bars with non-zero range.
    pub fn close_range_position(bars: &[OhlcvBar]) -> (r: Option<Decimal>)
        requires
            forall|i: int| 0 <= i < bars@.len() ==> (#[trigger] bars@[i]).range_val() is Some,
            tally(bars@.len() as int, ranged_bars(bars@)) > 0
                ==> mean_where(bars@.len() as int, ranged_bars(bars@), close_positions(bars@)) is Some,
        ensures
            yields(
                r,
                tally(bars@.len() as int, ranged_bars(bars@)) > 0,
                mean_where(bars@.len() as int, ranged_bars(bars@), close_positions(bars@)),
            ),
    {
        Self::close_to_range_position(bars)
    }

    /// Mean of `high / prev_close - 1` (overnight gap-up fraction) across consecutive bars
    /// whose prior close is not zero.
    /// Returns `None` if there are no such bars.
    pub fn high_to_prev_close(bars: &[OhlcvBar]) -> (r: Option<Decimal>)
        requires
            tally(windows(bars@.len(), 2), nonzero_prior_closes(bars@)) > 0
                ==> mean_where(
                    windows(bars@.len(), 2),
                    nonzero_prior_closes(bars@),
                    relative_high_moves(bars@),
                ) is Some,
        ensures
            yields(
                r,
                tally(windows(bars@.len(), 2), nonzero_prior_closes(bars@)) > 0,
                mean_where(
                    windows(bars@.len(), 2),
                    nonzero_prior_closes(bars@),
                    relative_high_moves(bars@),
                ),
            ),
    {
        series::average_pairs(
            bars,
            |p: &OhlcvBar, b: &OhlcvBar| -> (r: bool)
                ensures
                    r == (p.close@ != 0)
            { !p.close.is_zero() },
            |p: &OhlcvBar, b: &OhlcvBar| -> (d: Decimal)
                requires
                    over(minus(b.high.val(), p.close.val()), p.close.val()) is Some,
                ensures
                    d.val() == over(minus(b.high.val(), p.close.val()), p.close.val())
            { (b.high - p.close) / p.close },
            Ghost(nonzero_prior_closes(bars@)),
            Ghost(relative_high_moves(bars@)),
        )
    }

    /// Mean of `close - prev_open` across consecutive bars.
    /// Returns `None` for fewer than 2 bars.
    pub fn close_to_prev_open(bars: &[OhlcvBar]) -> (r: Option<Decimal>)
        requires
            bars@.len() >= 2 ==> mean(windows(bars@.len(), 2), close_to_prev_opens(bars@)) is Some,
        ensures
            yields(r, bars@.len() >= 2, mean(windows(bars@.len(), 2), close_to_prev_opens(bars@))),
    {
        if bars.len() < 2 {
            return None;
        }
        let sum = series::add_up_pairs(
            bars,
            |p: &OhlcvBar, b: &OhlcvBar| -> (d: Decimal)
                requires
                    minus(b.close.val(), p.open.val()) is Some,
                ensures
                    d.val() == minus(b.close.val(), p.open.val())
            { b.close - p.open },
            Ghost(close_to_prev_opens(bars@)),
        );
        Some(sum / Decimal::count((bars.len() - 1) as u64))
    }

    /// Mean of `|close - prev_close| / prev_close` across consecutive bars whose prior
    /// close is not zero.
    /// Returns `None` if there are no such bars.
    pub fn momentum_ratio(bars: &[OhlcvBar]) -> (r: Option<Decimal>)
        requires
            tally(windows(bars@.len(), 2), nonzero_prior_closes(bars@)) > 0
                ==> mean_where(
                    windows(bars@.len(), 2),
                    nonzero_prior_closes(bars@),
                    relative_close_moves(bars@),
                ) is Some,
        ensures
            yields(
                r,
                tally(windows(bars@.len(), 2), nonzero_prior_closes(bars@)) > 0,
                mean_where(
                    windows(bars@.len(), 2),
                    nonzero_prior_closes(bars@),
                    relative_close_moves(bars@),
                ),
            ),
    {
        series::average_pairs(
            bars,
            |p: &OhlcvBar, b: &OhlcvBar| -> (r: bool)
                ensures
                    r == (p.close@ != 0)
            { !p.close.is_zero() },
            |p: &OhlcvBar, b: &OhlcvBar| -> (d: Decimal)
                requires
                    over(magnitude(minus(b.close.val(), p.close.val())), p.close.val()) is Some,
                ensures
                    d.val() == over(magnitude(minus(b.close.val(), p.close.val())), p.close.val())
            { (b.close - p.close).abs() / p.close },
            Ghost(nonzero_prior_closes(bars@)),
            Ghost(relative_close_moves(bars@)),
        )
    }

    /// Fraction of bar body that lies in the upper half of the bar's range.
    /// `body_upper = max(open, close) - midpoint` / range, averaged across bars.
    /// Returns `None` for an empty slice or no bars with non-zero range.
    pub fn body_upper_fraction(bars: &[OhlcvBar]) -> (r: Option<Decimal>)
        requires
            forall|i: int| 0 <= i < bars@.len() ==> (#[trigger] bars@[i]).range_val() is Some,
            tally(bars@.len() as int, ranged_bars(bars@)) > 0
                ==> mean_where(
                    bars@.len() as int,
                    ranged_bars(bars@),
                    upper_body_shares(bars@),
                ) is Some,
        ensures
            yields(
                r,
                tally(bars@.len() as int, ranged_bars(bars@)) > 0,
                mean_where(bars@.len() as int, ranged_bars(bars@), upper_body_shares(bars@)),
            ),
    {
        series::average(
            bars,
            |b: &OhlcvBar| -> (r: bool)
                requires
                    b.range_val() is Some,
                ensures
                    r == (!is_nought(b.range_val()))
            { !b.range().is_zero() },
            |b: &OhlcvBar| -> (d: Decimal)
                requires
                    over(
                        larger(minus(b.body_high_val(), b.median_price_val()), whole(0)),
                        b.range_val(),
                    ) is Some,
                ensures
                    d.val()
                        == over(larger(minus(b.body_high_val(), b.median_price_val()), whole(0)), b.range_val())
            { (b.body_high() - b.median_price()).max(Decimal::zero()) / b.range() },
            Ghost(ranged_bars(bars@)),
            Ghost(upper_body_shares(bars@)),
        )
    }

    /// Mean of `close / open - 1` (intra-bar return) across bars with non-zero open.
    /// Returns `None` for an empty slice.
    pub fn avg_close_to_open(bars: &[OhlcvBar]) -> (r: Option<Decimal>)
        requires
            tally(bars@.len() as int, nonzero_opens(bars@)) > 0
                ==> mean_where(bars@.len() as int, nonzero_opens(bars@), bar_returns(bars@)) is Some,
        ensures
            yields(
                r,
                tally(bars@.len() as int, nonzero_opens(bars@)) > 0,
                mean_where(bars@.len() as int, nonzero_opens(bars@), bar_returns(bars@)),
            ),
    {
        Self::open_to_close_momentum(bars)
    }

    /// Mean trailing stop distance: `close - min(low over last N bars)` for each bar, N=3.
    /// Returns `None` for fewer than 3 bars.
    pub fn trailing_stop_distance(bars: &[OhlcvBar]) -> (r: Option<Decimal>)
        requires
            bars@.len() >= 3 ==> mean(windows(bars@.len(), 3), stop_distances(bars@)) is Some,
        ensures
            yields(r, bars@.len() >= 3, mean(windows(bars@.len(), 3), stop_distances(bars@))),
    {
        if bars.len() < 3 {
            return None;
        }
        let sum = series::add_up_triples(
            bars,
            |x: &OhlcvBar, y: &OhlcvBar, z: &OhlcvBar| -> (d: Decimal)
                requires
                    minus(z.close.val(), smaller(smaller(x.low.val(), y.low.val()), z.low.val())) is Some,
                ensures
                    d.val() == minus(z.close.val(), smaller(smaller(x.low.val(), y.low.val()), z.low.val()))
            { z.close - x.low.min(y.low).min(z.low) },
            Ghost(stop_distances(bars@)),
        );
        Some(sum / Decimal::count((bars.len() - 2) as u64))
    }

    /// Candle range efficiency: mean `|close - open| / (high - low)` across bars with range > 0.
    /// Returns `None` for an empty slice or no qualifying bars.
    pub fn candle_range_efficiency(bars: &[OhlcvBar]) -> (r: Option<Decimal>)
        requires
            forall|i: int| 0 <= i < bars@.len() ==> (#[trigger] bars@[i]).range_val() is Some,
            tally(bars@.len() as int, ranged_bars(bars@)) > 0
                ==> mean_where(bars@.len() as int, ranged_bars(bars@), body_shares(bars@)) is Some,
        ensures
            yields(
                r,
                tally(bars@.len() as int, ranged_bars(bars@)) > 0,
                mean_where(bars@.len() as int, ranged_bars(bars@), body_shares(bars@)),
            ),
    {
        Self::mean_body_ratio(bars)
    }

    /// Mean of `(close - prev_close) / prev_close` across consecutive bars.
    /// Returns `None` for fewer than 2 bars.
    pub fn price_momentum_mean(bars: &[OhlcvBar]) -> (r: Option<Decimal>)
        requires
            tally(windows(bars@.len(), 2), nonzero_prior_closes(bars@)) > 0
                ==> mean_where(
                    windows(bars@.len(), 2),
                    nonzero_prior_closes(bars@),
                    relative_close_changes(bars@),
                ) is Some,
        ensures
            yields(
                r,
                tally(windows(bars@.len(), 2), nonzero_prior_closes(bars@)) > 0,
                mean_where(
                    windows(bars@.len(), 2),
                    nonzero_prior_closes(bars@),
                    relative_close_changes(bars@),
                ),
            ),
    {
        series::average_pairs(
            bars,
            |p: &OhlcvBar, b: &OhlcvBar| -> (r: bool)
                ensures
                    r == (p.close@ != 0)
            { !p.close.is_zero() },
            |p: &OhlcvBar, b: &OhlcvBar| -> (d: Decimal)
                requires
                    over(minus(b.close.val(), p.close.val()), p.close.val()) is Some,
                ensures
                    d.val() == over(minus(b.close.val(), p.close.val()), p.close.val())
            { (b.close - p.close) / p.close },
            Ghost(nonzero_prior_closes(bars@)),
            Ghost(relative_close_changes(bars@)),
        )
    }

    /// Mean of `(close - open) / (high - low)` — intra-bar efficiency.
    /// Returns `None` for an empty slice or no bars with non-zero range.
    pub fn avg_intrabar_efficiency(bars: &[OhlcvBar]) -> (r: Option<Decimal>)
        requires
            forall|i: int| 0 <= i < bars@.len() ==> (#[trigger] bars@[i]).range_val() is Some,
            tally(bars@.len() as int, ranged_bars(bars@)) > 0
                ==> mean_where(
                    bars@.len() as int,
                    ranged_bars(bars@),
                    signed_body_shares(bars@),
                ) is Some,
        ensures
            yields(
                r,
                tally(bars@.len() as int, ranged_bars(bars@)) > 0,
                mean_where(bars@.len() as int, ranged_bars(bars@), signed_body_shares(bars@)),
            ),
    {
        Self::close_to_open_range_ratio(bars)
    }

    /// Mean ratio of total wick length to body length across bars.
    /// Bars with zero body are skipped. Returns `None` if no eligible bars.
    pub fn wicks_to_body_ratio(bars: &[OhlcvBar]) -> (r: Option<Decimal>)
        requires
            forall|i: int| 0 <= i < bars@.len() ==> (#[trigger] bars@[i]).body_val() is Some,
            tally(bars@.len() as int, nonzero_bodies(bars@)) > 0
                ==> mean_where(
                    bars@.len() as int,
                    nonzero_bodies(bars@),
                    wicks_per_body(bars@),
                ) is Some,
        ensures
            yields(
                r,
                tally(bars@.len() as int, nonzero_bodies(bars@)) > 0,
                mean_where(bars@.len() as int, nonzero_bodies(bars@), wicks_per_body(bars@)),
            ),
    {
        Self::wick_body_ratio(bars)
    }

    /// Mean ratio of each bar's open to its midpoint `(high+low)/2`.
    /// Returns `None` for empty input.
    pub fn open_midpoint_ratio(bars: &[OhlcvBar]) -> (r: Option<Decimal>)
        requires
            bars@.len() > 0 ==> mean(bars@.len() as int, opens_per_midpoint_or_one(bars@)) is Some,
        ensures
            yields(r, bars@.len() > 0, mean(bars@.len() as int, opens_per_midpoint_or_one(bars@))),
    {
        if bars.len() == 0 {
            return None;
        }
        let sum = series::add_up(
            bars,
            |b: &OhlcvBar| -> (d: Decimal)
                requires
                    over_or(b.open.val(), b.median_price_val(), whole(1)) is Some,
                ensures
                    d.val() == over_or(b.open.val(), b.median_price_val(), whole(1))
            {
                if b.median_price().is_zero() {
                    Decimal::whole(1)
                } else {
                    b.open / b.median_price()
                }
            },
            Ghost(opens_per_midpoint_or_one(bars@)),
        );
        Some(sum / Decimal::count(bars.len() as u64))
    }

    /// Mean ratio of bar range `(high - low)` to volume for each bar.
    /// Bars with zero volume are skipped. Returns `None` if no eligible bars.
    pub fn range_to_volume_ratio(bars: &[OhlcvBar]) -> (r: Option<Decimal>)
        requires
            tally(bars@.len() as int, nonzero_volumes(bars@)) > 0
                ==> mean_where(
                    bars@.len() as int,
                    nonzero_volumes(bars@),
                    ranges_per_volume(bars@),
                ) is Some,
        ensures
            yields(
                r,
                tally(bars@.len() as int, nonzero_volumes(bars@)) > 0,
                mean_where(bars@.len() as int, nonzero_volumes(bars@), ranges_per_volume(bars@)),
            ),
    {
        series::average(
            bars,
            |b: &OhlcvBar| -> (r: bool)
                ensures
                    r == (b.volume@ != 0)
            { !b.volume.is_zero() },
            |b: &OhlcvBar| -> (d: Decimal)
                requires
                    over(b.range_val(), b.volume.val()) is Some,
                ensures
                    d.val() == over(b.range_val(), b.volume.val())
            { b.range() / b.volume },
            Ghost(nonzero_volumes(bars@)),
            Ghost(ranges_per_volume(bars@)),
        )
    }

    /// Mean of `(high - low)` (the high-low spread) across bars.
    /// Returns `None` for empty input.
    pub fn avg_high_low_spread(bars: &[OhlcvBar]) -> (r: Option<Decimal>)
        requires
            bars@.len() > 0 ==> mean(bars@.len() as int, ranges(bars@)) is Some,
        ensures
            yields(r, bars@.len() > 0, mean(bars@.len() as int, ranges(bars@))),
    {
        Self::bar_range_mean(bars)
    }

    /// Mean ratio of bar body size to bar range. Bars with zero range are skipped.
    /// Returns `None` if no eligible bars.
    pub fn avg_body_efficiency(bars: &[OhlcvBar]) -> (r: Option<Decimal>)
        requires
            forall|i: int| 0 <= i < bars@.len() ==> (#[trigger] bars@[i]).range_val() is Some,
            tally(bars@.len() as int, ranged_bars(bars@)) > 0
                ==> mean_where(bars@.len() as int, ranged_bars(bars@), body_shares(bars@)) is Some,
        ensures
            yields(
                r,
                tally(bars@.len() as int, ranged_bars(bars@)) > 0,
                mean_where(bars@.len() as int, ranged_bars(bars@), body_shares(bars@)),
            ),
    {
        Self::mean_body_ratio(bars)
    }

    /// Mean absolute open gap `|open - prev_close|` across consecutive bar pairs.
    /// Returns `None` for fewer than 2 bars.
    pub fn avg_open_gap(bars: &[OhlcvBar]) -> (r: Option<Decimal>)
        requires
            bars@.len() >= 2 ==> mean(windows(bars@.len(), 2), gap_sizes(bars@)) is Some,
        ensures
            yields(r, bars@.len() >= 2, mean(windows(bars@.len(), 2), gap_sizes(bars@))),
    {
        if bars.len() < 2 {
            return None;
        }
        let sum = series::add_up_pairs(
            bars,
            |p: &OhlcvBar, b: &OhlcvBar| -> (d: Decimal)
                requires
                    magnitude(minus(b.open.val(), p.close.val())) is Some,
                ensures
                    d.val() == magnitude(minus(b.open.val(), p.close.val()))
            { (b.open - p.close).abs() },
            Ghost(gap_sizes(bars@)),
        );
        Some(sum / Decimal::count((bars.len() - 1) as u64))
    }

    /// Mean ratio of `high` to `low` for each bar. Bars with zero low are skipped.
    /// Returns `None` if no eligible bars.
    pub fn hl_ratio_mean(bars: &[OhlcvBar]) -> (r: Option<Decimal>)
        requires
            tally(bars@.len() as int, nonzero_lows(bars@)) > 0
                ==> mean_where(bars@.len() as int, nonzero_lows(bars@), high_low_ratios(bars@)) is Some,
        ensures
            yields(
                r,
                tally(bars@.len() as int, nonzero_lows(bars@)) > 0,
                mean_where(bars@.len() as int, nonzero_lows(bars@), high_low_ratios(bars@)),
            ),
    {
        Self::avg_high_low_ratio(bars)
    }

    /// Mean ratio of total shadow `(high - max(open,close)) + (min(open,close) - low)`
    /// to bar range `(high - low)`. Bars with zero range are skipped. Returns `None`
    /// if no eligible bars.
    pub fn shadow_to_range_ratio(bars: &[OhlcvBar]) -> (r: Option<Decimal>)
        requires
            forall|i: int| 0 <= i < bars@.len() ==> (#[trigger] bars@[i]).range_val() is Some,
            tally(bars@.len() as int, ranged_bars(bars@)) > 0
                ==> mean_where(bars@.len() as int, ranged_bars(bars@), wick_shares(bars@)) is Some,
        ensures
            yields(
                r,
                tally(bars@.len() as int, ranged_bars(bars@)) > 0,
                mean_where(bars@.len() as int, ranged_bars(bars@), wick_shares(bars@)),
            ),
    {
        Self::mean_wick_ratio(bars)
    }

    /// Mean of `close - low` across bars. Returns `None` for empty input.
    pub fn avg_close_to_low(bars: &[OhlcvBar]) -> (r: Option<Decimal>)
        requires
            bars@.len() > 0 ==> mean(bars@.len() as int, close_to_lows(bars@)) is Some,
        ensures
            yields(r, bars@.len() > 0, mean(bars@.len() as int, close_to_lows(bars@))),
    {
        if bars.len() == 0 {
            return None;
        }
        let sum = series::add_up(
            bars,
            |b: &OhlcvBar| -> (d: Decimal)
                requires
                    minus(b.close.val(), b.low.val()) is Some,
                ensures
                    d.val() == minus(b.close.val(), b.low.val())
            { b.close - b.low },
            Ghost(close_to_lows(bars@)),
        );
        Some(sum / Decimal::count(bars.len() as u64))
    }

    /// Mean of `high - close` across bars. Returns `None` for empty input.
    pub fn avg_high_to_close(bars: &[OhlcvBar]) -> (r: Option<Decimal>)
        requires
            bars@.len() > 0 ==> mean(bars@.len() as int, high_to_closes(bars@)) is Some,
        ensures
            yields(r, bars@.len() > 0, mean(bars@.len() as int, high_to_closes(bars@))),
    {
        Self::high_close_spread(bars)
    }

    /// Mean `(close - open) / open` percentage change per bar.
    /// Bars with zero open are skipped. Returns `None` if no eligible bars.
    pub fn close_to_open_pct(bars: &[OhlcvBar]) -> (r: Option<Decimal>)
        requires
            tally(bars@.len() as int, nonzero_opens(bars@)) > 0
                ==> mean_where(bars@.len() as int, nonzero_opens(bars@), bar_returns(bars@)) is Some,
        ensures
            yields(
                r,
                tally(bars@.len() as int, nonzero_opens(bars@)) > 0,
                mean_where(bars@.len() as int, nonzero_opens(bars@), bar_returns(bars@)),
            ),
    {
        Self::open_to_close_momentum(bars)
    }

    /// Mean of `low - close` (negative when close > low). Returns `None` for empty input.
    pub fn avg_low_to_close(bars: &[OhlcvBar]) -> (r: Option<Decimal>)
        requires
            bars@.len() > 0 ==> mean(bars@.len() as int, low_to_closes(bars@)) is Some,
        ensures
            yields(r, bars@.len() > 0, mean(bars@.len() as int, low_to_closes(bars@))),
    {
        if bars.len() == 0 {
            return None;
        }
        let sum = series::add_up(
            bars,
            |b: &OhlcvBar| -> (d: Decimal)
                requires
                    minus(b.low.val(), b.close.val()) is Some,
                ensures
                    d.val() == minus(b.low.val(), b.close.val())
            { b.low - b.close },
            Ghost(low_to_closes(bars@)),
        );
        Some(sum / Decimal::count(bars.len() as u64))
    }

    /// Mean of `(close - low) / (high - low)` close-range position across bars.
    /// Bars with zero range are skipped. Returns `None` if no eligible bars.
    pub fn avg_close_range_pct(bars: &[OhlcvBar]) -> (r: Option<Decimal>)
        requires
            forall|i: int| 0 <= i < bars@.len() ==> (#[trigger] bars@[i]).range_val() is Some,
            tally(bars@.len() as int, ranged_bars(bars@)) > 0
                ==> mean_where(bars@.len() as int, ranged_bars(bars@), close_positions(bars@)) is Some,
        ensures
            yields(
                r,
                tally(bars@.len() as int, ranged_bars(bars@)) > 0,
                mean_where(bars@.len() as int, ranged_bars(bars@), close_positions(bars@)),
            ),
    {
        Self::close_to_range_position(bars)
    }

    /// Shadow asymmetry: mean of `(upper_shadow - lower_shadow) / range`.
    /// Positive → upper wicks dominate. Bars with zero range are skipped.
    /// Returns `None` if no eligible bars.
    pub fn shadow_asymmetry(bars: &[OhlcvBar]) -> (r: Option<Decimal>)
        requires
            forall|i: int| 0 <= i < bars@.len() ==> (#[trigger] bars@[i]).range_val() is Some,
            tally(bars@.len() as int, ranged_bars(bars@)) > 0
                ==> mean_where(bars@.len() as int, ranged_bars(bars@), wick_imbalances(bars@)) is Some,
        ensures
            yields(
                r,
                tally(bars@.len() as int, ranged_bars(bars@)) > 0,
                mean_where(bars@.len() as int, ranged_bars(bars@), wick_imbalances(bars@)),
            ),
    {
        series::average(
            bars,
            |b: &OhlcvBar| -> (r: bool)
                requires
                    b.range_val() is Some,
                ensures
                    r == (!is_nought(b.range_val()))
            { !b.range().is_zero() },
            |b: &OhlcvBar| -> (d: Decimal)
                requires
                    over(minus(b.wick_upper_val(), b.wick_lower_val()), b.range_val()) is Some,
                ensures
                    d.val() == over(minus(b.wick_upper_val(), b.wick_lower_val()), b.range_val())
            { (b.wick_upper() - b.wick_lower()) / b.range() },
            Ghost(ranged_bars(bars@)),
            Ghost(wick_imbalances(bars@)),
        )
    }

    /// Mean of `(open + close) / 2` across bars. Returns `None` for empty input.
    pub fn open_close_midpoint(bars: &[OhlcvBar]) -> (r: Option<Decimal>)
        requires
            bars@.len() > 0 ==> mean(bars@.len() as int, body_midpoints(bars@)) is Some,
        ensures
            yields(r, bars@.len() > 0, mean(bars@.len() as int, body_midpoints(bars@))),
    {
        if bars.len() == 0 {
            return None;
        }
        let sum = series::add_up(
            bars,
            |b: &OhlcvBar| -> (d: Decimal)
                requires
                    over(plus(b.open.val(), b.close.val()), whole(2)) is Some,
                ensures
                    d.val() == over(plus(b.open.val(), b.close.val()), whole(2))
            { b.bar_midpoint() },
            Ghost(body_midpoints(bars@)),
        );
        Some(sum / Decimal::count(bars.len() as u64))
    }

    /// Average bar volatility: mean of (high - low) as a fraction of open.
    pub fn avg_bar_volatility(bars: &[OhlcvBar]) -> (r: Option<Decimal>)
        requires
            bars@.len() > 0 ==> mean(bars@.len() as int, ranges_per_open_or_zero(bars@)) is Some,
        ensures
            yields(r, bars@.len() > 0, mean(bars@.len() as int, ranges_per_open_or_zero(bars@))),
    {
        if bars.len() == 0 {
            return None;
        }
        let sum = series::add_up(
            bars,
            |b: &OhlcvBar| -> (d: Decimal)
                requires
                    over_or(b.range_val(), b.open.val(), whole(0)) is Some,
                ensures
                    d.val() == over_or(b.range_val(), b.open.val(), whole(0))
            {
                if b.open.is_zero() {
                    Decimal::zero()
                } else {
                    b.range() / b.open
                }
            },
            Ghost(ranges_per_open_or_zero(bars@)),
        );
        Some(sum / Decimal::count(bars.len() as u64))
    }

    /// Mean of body size as fraction of range: |close-open| / (high-low) per bar.
    pub fn body_to_range_pct(bars: &[OhlcvBar]) -> (r: Option<Decimal>)
        requires
            bars@.len() > 0 ==> mean(bars@.len() as int, body_shares_or_zero(bars@)) is Some,
        ensures
            yields(r, bars@.len() > 0, mean(bars@.len() as int, body_shares_or_zero(bars@))),
    {
        if bars.len() == 0 {
            return None;
        }
        let sum = series::add_up(
            bars,
            |b: &OhlcvBar| -> (d: Decimal)
                requires
                    over_or(b.body_val(), b.range_val(), whole(0)) is Some,
                ensures
                    d.val() == over_or(b.body_val(), b.range_val(), whole(0))
            {
                if b.range().is_zero() {
                    Decimal::zero()
                } else {
                    b.body() / b.range()
                }
            },
            Ghost(body_shares_or_zero(bars@)),
        );
        Some(sum / Decimal::count(bars.len() as u64))
    }

    /// Mean absolute gap between consecutive bars: |open[i] - close[i-1]|.
    pub fn avg_open_close_gap(bars: &[OhlcvBar]) -> (r: Option<Decimal>)
        requires
            bars@.len() >= 2 ==> mean(windows(bars@.len(), 2), gap_sizes(bars@)) is Some,
        ensures
            yields(r, bars@.len() >= 2, mean(windows(bars@.len(), 2), gap_sizes(bars@))),
    {
        Self::avg_open_gap(bars)
    }

    /// Mean distance from the upper end of the body to the high, as a fraction of the range
    /// per bar, and a half for a bar with zero range.
    pub fn high_low_body_ratio(bars: &[OhlcvBar]) -> (r: Option<Decimal>)
        requires
            bars@.len() > 0 ==> mean(bars@.len() as int, upper_wick_shares_or_half(bars@)) is Some,
        ensures
            yields(r, bars@.len() > 0, mean(bars@.len() as int, upper_wick_shares_or_half(bars@))),
    {
        if bars.len() == 0 {
            return None;
        }
        let sum = series::add_up(
            bars,
            |b: &OhlcvBar| -> (d: Decimal)
                requires
                    over_or(b.wick_upper_val(), b.range_val(), hundredths(50)) is Some,
                ensures
                    d.val() == over_or(b.wick_upper_val(), b.range_val(), hundredths(50))
            {
                if b.range().is_zero() {
                    Decimal::hundredths(50)
                } else {
                    b.wick_upper() / b.range()
                }
            },
            Ghost(upper_wick_shares_or_half(bars@)),
        );
        Some(sum / Decimal::count(bars.len() as u64))
    }

    /// Mean of (close - low) / (high - low) per bar (close position within range).
    pub fn close_range_pct(bars: &[OhlcvBar]) -> (r: Option<Decimal>)
        requires
            bars@.len() > 0 ==> mean(bars@.len() as int, close_positions_or_half(bars@)) is Some,
        ensures
            yields(r, bars@.len() > 0, mean(bars@.len() as int, close_positions_or_half(bars@))),
    {
        if bars.len() == 0 {
            return None;
        }
        let sum = series::add_up(
            bars,
            |b: &OhlcvBar| -> (d: Decimal)
                requires
                    over_or(minus(b.close.val(), b.low.val()), b.range_val(), hundredths(50)) is Some,
                ensures
                    d.val() == over_or(minus(b.close.val(), b.low.val()), b.range_val(), hundredths(50))
            {
                if b.range().is_zero() {
                    Decimal::hundredths(50)
                } else {
                    (b.close - b.low) / b.range()
                }
            },
            Ghost(close_positions_or_half(bars@)),
        );
        Some(sum / Decimal::count(bars.len() as u64))
    }

    /// Mean of (high - low) / open as a fraction across bars.
    pub fn avg_bar_range_pct(bars: &[OhlcvBar]) -> (r: Option<Decimal>)
        requires
            bars@.len() > 0 ==> mean(bars@.len() as int, ranges_per_open_or_zero(bars@)) is Some,
        ensures
            yields(r, bars@.len() > 0, mean(bars@.len() as int, ranges_per_open_or_zero(bars@))),
    {
        Self::avg_bar_volatility(bars)
    }

    /// Mean of (open - low) / (high - low): open proximity to the low.
    pub fn open_to_low_ratio(bars: &[OhlcvBar]) -> (r: Option<Decimal>)
        requires
            bars@.len() > 0 ==> mean(bars@.len() as int, open_positions_or_half(bars@)) is Some,
        ensures
            yields(r, bars@.len() > 0, mean(bars@.len() as int, open_positions_or_half(bars@))),
    {
        if bars.len() == 0 {
            return None;
        }
        let sum = series::add_up(
            bars,
            |b: &OhlcvBar| -> (d: Decimal)
                requires
                    over_or(minus(b.open.val(), b.low.val()), b.range_val(), hundredths(50)) is Some,
                ensures
                    d.val() == over_or(minus(b.open.val(), b.low.val()), b.range_val(), hundredths(50))
            {
                if b.range().is_zero() {
                    Decimal::hundredths(50)
                } else {
                    (b.open - b.low) / b.range()
                }
            },
            Ghost(open_positions_or_half(bars@)),
        );
        Some(sum / Decimal::count(bars.len() as u64))
    }

    /// Mean of absolute volume changes between consecutive bars.
    pub fn avg_volume_change(bars: &[OhlcvBar]) -> (r: Option<Decimal>)
        requires
            bars@.len() >= 2 ==> mean(windows(bars@.len(), 2), volume_moves(bars@)) is Some,
        ensures
            yields(r, bars@.len() >= 2, mean(windows(bars@.len(), 2), volume_moves(bars@))),
    {
        if bars.len() < 2 {
            return None;
        }
        let sum = series::add_up_pairs(
            bars,
            |p: &OhlcvBar, b: &OhlcvBar| -> (d: Decimal)
                requires
                    magnitude(minus(b.volume.val(), p.volume.val())) is Some,
                ensures
                    d.val() == magnitude(minus(b.volume.val(), p.volume.val()))
            { (b.volume - p.volume).abs() },
            Ghost(volume_moves(bars@)),
        );
        Some(sum / Decimal::count((bars.len() - 1) as u64))
    }

    /// Mean of (high - low) / prior close across bars (range as fraction of prior close).
    pub fn avg_true_range_ratio(bars: &[OhlcvBar]) -> (r: Option<Decimal>)
        requires
            bars@.len() >= 2
                ==> mean(windows(bars@.len(), 2), ranges_per_prior_close_or_zero(bars@)) is Some,
        ensures
            yields(
                r,
                bars@.len() >= 2,
                mean(windows(bars@.len(), 2), ranges_per_prior_close_or_zero(bars@)),
            ),
    {
        if bars.len() < 2 {
            return None;
        }
        let sum = series::add_up_pairs(
            bars,
            |p: &OhlcvBar, b: &OhlcvBar| -> (d: Decimal)
                requires
                    over_or(b.range_val(), p.close.val(), whole(0)) is Some,
                ensures
                    d.val() == over_or(b.range_val(), p.close.val(), whole(0))
            {
                if p.close.is_zero() {
                    Decimal::zero()
                } else {
                    b.range() / p.close
                }
            },
            Ghost(ranges_per_prior_close_or_zero(bars@)),
        );
        Some(sum / Decimal::count((bars.len() - 1) as u64))
    }

    /// Mean fraction of bar range that is body: |close-open| / (high-low).
    pub fn close_body_fraction(bars: &[OhlcvBar]) -> (r: Option<Decimal>)
        requires
            bars@.len() > 0 ==> mean(bars@.len() as int, body_shares_or_zero(bars@)) is Some,
        ensures
            yields(r, bars@.len() > 0, mean(bars@.len() as int, body_shares_or_zero(bars@))),
    {
        Self::body_to_range_pct(bars)
    }

    /// Mean second-order close change (close acceleration).
    pub fn bar_momentum_accel(bars: &[OhlcvBar]) -> (r: Option<Decimal>)
        requires
            bars@.len() >= 3 ==> mean(windows(bars@.len(), 3), close_accelerations(bars@)) is Some,
        ensures
            yields(r, bars@.len() >= 3, mean(windows(bars@.len(), 3), close_accelerations(bars@))),
    {
        if bars.len() < 3 {
            return None;
        }
        let sum = series::add_up_triples(
            bars,
            |x: &OhlcvBar, y: &OhlcvBar, z: &OhlcvBar| -> (d: Decimal)
                requires
                    plus(minus(z.close.val(), times(y.close.val(), whole(2))), x.close.val()) is Some,
                ensures
                    d.val() == plus(minus(z.close.val(), times(y.close.val(), whole(2))), x.close.val())
            { z.close - y.close * Decimal::whole(2) + x.close },
            Ghost(close_accelerations(bars@)),
        );
        Some(sum / Decimal::count((bars.len() - 2) as u64))
    }

    /// Mean absolute close change per bar (close velocity).
    pub fn close_velocity(bars: &[OhlcvBar]) -> (r: Option<Decimal>)
        requires
            bars@.len() >= 2 ==> mean(windows(bars@.len(), 2), close_moves(bars@)) is Some,
        ensures
            yields(r, bars@.len() >= 2, mean(windows(bars@.len(), 2), close_moves(bars@))),
    {
        if bars.len() < 2 {
            return None;
        }
        let sum = series::add_up_pairs(
            bars,
            |p: &OhlcvBar, b: &OhlcvBar| -> (d: Decimal)
                requires
                    magnitude(minus(b.close.val(), p.close.val())) is Some,
                ensures
                    d.val() == magnitude(minus(b.close.val(), p.close.val()))
            { (b.close - p.close).abs() },
            Ghost(close_moves(bars@)),
        );
        Some(sum / Decimal::count((bars.len() - 1) as u64))
    }

    /// Mean of (open - low) / (high - low): how high in the range the open is.
    pub fn open_range_score(bars: &[OhlcvBar]) -> (r: Option<Decimal>)
        requires
            bars@.len() > 0 ==> mean(bars@.len() as int, open_positions_or_half(bars@)) is Some,
        ensures
            yields(r, bars@.len() > 0, mean(bars@.len() as int, open_positions_or_half(bars@))),
    {
        Self::open_to_low_ratio(bars)
    }

    /// Mean of (high - low) relative to the bar midpoint (open+close)/2.
    pub fn bar_tightness(bars: &[OhlcvBar]) -> (r: Option<Decimal>)
        requires
            bars@.len() > 0
                ==> mean(bars@.len() as int, ranges_per_body_midpoint_or_zero(bars@)) is Some,
        ensures
            yields(
                r,
                bars@.len() > 0,
                mean(bars@.len() as int, ranges_per_body_midpoint_or_zero(bars@)),
            ),
    {
        if bars.len() == 0 {
            return None;
        }
        let sum = series::add_up(
            bars,
            |b: &OhlcvBar| -> (d: Decimal)
                requires
                    over_or(b.range_val(), over(plus(b.open.val(), b.close.val()), whole(2)), whole(0)) is Some,
                ensures
                    d.val()
                        == over_or(b.range_val(), over(plus(b.open.val(), b.close.val()), whole(2)), whole(0))
            {
                if b.bar_midpoint().is_zero() {
                    Decimal::zero()
                } else {
                    b.range() / b.bar_midpoint()
                }
            },
            Ghost(ranges_per_body_midpoint_or_zero(bars@)),
        );
        Some(sum / Decimal::count(bars.len() as u64))
    }

    /// Average close slope: mean of (close[i] - close[i-1]) across bars.
    pub fn avg_close_slope(bars: &[OhlcvBar]) -> (r: Option<Decimal>)
        requires
            bars@.len() >= 2 ==> mean(windows(bars@.len(), 2), close_changes(bars@)) is Some,
        ensures
            yields(r, bars@.len() >= 2, mean(windows(bars@.len(), 2), close_changes(bars@))),
    {
        Self::close_change_mean(bars)
    }

    /// Bar energy: mean of (high - low)^2 across bars.
    pub fn bar_energy(bars: &[OhlcvBar]) -> (r: Option<Scientific>)
        requires
            bars@.len() > 0 ==> all_some(bars@.len() as int, ranges(bars@)),
        ensures
            ({
                let xs = listed(bars@.len() as int, ranges(bars@));
                yields_ratio(r, bars@.len() > 0, dot(xs, xs), bars@.len() * (unit() * unit()))
            }),
    {
        if bars.len() == 0 {
            return None;
        }
        let list = Self::range_values(bars);
        proof {
            lemma_listed(list@, bars@.len() as int, ranges(bars@));
        }
        Some(mean_square_of(&units_of(list.as_slice())))
    }

    /// Bar range trend: mean of (range[i] - range[i-1]) across consecutive bars.
    pub fn bar_range_trend(bars: &[OhlcvBar]) -> (r: Option<Decimal>)
        requires
            bars@.len() >= 2 ==> mean(windows(bars@.len(), 2), range_changes(bars@)) is Some,
        ensures
            yields(r, bars@.len() >= 2, mean(windows(bars@.len(), 2), range_changes(bars@))),
    {
        if bars.len() < 2 {
            return None;
        }
        let sum = series::add_up_pairs(
            bars,
            |p: &OhlcvBar, b: &OhlcvBar| -> (d: Decimal)
                requires
                    minus(b.range_val(), p.range_val()) is Some,
                ensures
                    d.val() == minus(b.range_val(), p.range_val())
            { b.range() - p.range() },
            Ghost(range_changes(bars@)),
        );
        Some(sum / Decimal::count((bars.len() - 1) as u64))
    }

    /// Open-high spread: mean of (high - open) / open across bars.
    pub fn open_high_spread(bars: &[OhlcvBar]) -> (r: Option<Decimal>)
        requires
            tally(bars@.len() as int, nonzero_opens(bars@)) > 0
                ==> mean_where(
                    bars@.len() as int,
                    nonzero_opens(bars@),
                    high_to_open_returns(bars@),
                ) is Some,
        ensures
            yields(
                r,
                tally(bars@.len() as int, nonzero_opens(bars@)) > 0,
                mean_where(bars@.len() as int, nonzero_opens(bars@), high_to_open_returns(bars@)),
            ),
    {
        series::average(
            bars,
            |b: &OhlcvBar| -> (r: bool)
                ensures
                    r == (b.open@ != 0)
            { !b.open.is_zero() },
            |b: &OhlcvBar| -> (d: Decimal)
                requires
                    over(minus(b.high.val(), b.open.val()), b.open.val()) is Some,
                ensures
                    d.val() == over(minus(b.high.val(), b.open.val()), b.open.val())
            { (b.high - b.open) / b.open },
            Ghost(nonzero_opens(bars@)),
            Ghost(high_to_open_returns(bars@)),
        )
    }

    /// Close-body-range ratio: mean of body size / (high - low) per bar.
    pub fn close_body_range_ratio(bars: &[OhlcvBar]) -> (r: Option<Decimal>)
        requires
            forall|i: int| 0 <= i < bars@.len() ==> (#[trigger] bars@[i]).range_val() is Some,
            tally(bars@.len() as int, ranged_bars(bars@)) > 0
                ==> mean_where(bars@.len() as int, ranged_bars(bars@), body_shares(bars@)) is Some,
        ensures
            yields(
                r,
                tally(bars@.len() as int, ranged_bars(bars@)) > 0,
                mean_where(bars@.len() as int, ranged_bars(bars@), body_shares(bars@)),
            ),
    {
        Self::mean_body_ratio(bars)
    }

    /// Average body percent: mean of body / open across bars.
    pub fn avg_body_pct(bars: &[OhlcvBar]) -> (r: Option<Decimal>)
        requires
            tally(bars@.len() as int, nonzero_opens(bars@)) > 0
                ==> mean_where(
                    bars@.len() as int,
                    nonzero_opens(bars@),
                    bodies_per_open(bars@),
                ) is Some,
        ensures
            yields(
                r,
                tally(bars@.len() as int, nonzero_opens(bars@)) > 0,
                mean_where(bars@.len() as int, nonzero_opens(bars@), bodies_per_open(bars@)),
            ),
    {
        series::average(
            bars,
            |b: &OhlcvBar| -> (r: bool)
                ensures
                    r == (b.open@ != 0)
            { !b.open.is_zero() },
            |b: &OhlcvBar| -> (d: Decimal)
                requires
                    over(b.body_val(), b.open.val()) is Some,
                ensures
                    d.val() == over(b.body_val(), b.open.val())
            { b.body() / b.open },
            Ghost(nonzero_opens(bars@)),
            Ghost(bodies_per_open(bars@)),
        )
    }

    /// Bar symmetry: mean of |upper_shadow - lower_shadow| / range per bar.
    pub fn bar_symmetry(bars: &[OhlcvBar]) -> (r: Option<Decimal>)
        requires
            forall|i: int| 0 <= i < bars@.len() ==> (#[trigger] bars@[i]).range_val() is Some,
            tally(bars@.len() as int, ranged_bars(bars@)) > 0
                ==> mean_where(bars@.len() as int, ranged_bars(bars@), wick_asymmetries(bars@)) is Some,
        ensures
            yields(
                r,
                tally(bars@.len() as int, ranged_bars(bars@)) > 0,
                mean_where(bars@.len() as int, ranged_bars(bars@), wick_asymmetries(bars@)),
            ),
    {
        series::average(
            bars,
            |b: &OhlcvBar| -> (r: bool)
                requires
                    b.range_val() is Some,
                ensures
                    r == (!is_nought(b.range_val()))
            { !b.range().is_zero() },
            |b: &OhlcvBar| -> (d: Decimal)
                requires
                    over(magnitude(minus(b.wick_upper_val(), b.wick_lower_val())), b.range_val()) is Some,
                ensures
                    d.val() == over(magnitude(minus(b.wick_upper_val(), b.wick_lower_val())), b.range_val())
            { (b.wick_upper() - b.wick_lower()).abs() / b.range() },
            Ghost(ranged_bars(bars@)),
            Ghost(wick_asymmetries(bars@)),
        )
    }

    /// Bar body skew: mean of (close - open) / (high - low), signed.
    pub fn bar_body_skew(bars: &[OhlcvBar]) -> (r: Option<Decimal>)
        requires
            forall|i: int| 0 <= i < bars@.len() ==> (#[trigger] bars@[i]).range_val() is Some,
            tally(bars@.len() as int, ranged_bars(bars@)) > 0
                ==> mean_where(
                    bars@.len() as int,
                    ranged_bars(bars@),
                    signed_body_shares(bars@),
                ) is Some,
        ensures
            yields(
                r,
                tally(bars@.len() as int, ranged_bars(bars@)) > 0,
                mean_where(bars@.len() as int, ranged_bars(bars@), signed_body_shares(bars@)),
            ),
    {
        Self::close_to_open_range_ratio(bars)
    }

    /// Bar volume trend: mean of consecutive volume differences.
    pub fn bar_volume_trend(bars: &[OhlcvBar]) -> (r: Option<Decimal>)
        requires
            bars@.len() >= 2 ==> mean(windows(bars@.len(), 2), volume_changes(bars@)) is Some,
        ensures
            yields(r, bars@.len() >= 2, mean(windows(bars@.len(), 2), volume_changes(bars@))),
    {
        if bars.len() < 2 {
            return None;
        }
        let sum = series::add_up_pairs(
            bars,
            |p: &OhlcvBar, b: &OhlcvBar| -> (d: Decimal)
                requires
                    minus(b.volume.val(), p.volume.val()) is Some,
                ensures
                    d.val() == minus(b.volume.val(), p.volume.val())
            { b.volume - p.volume },
            Ghost(volume_changes(bars@)),
        );
        Some(sum / Decimal::count((bars.len() - 1) as u64))
    }

    /// Close-low spread: mean of (close - low) / (high - low) per bar.
    pub fn close_low_spread(bars: &[OhlcvBar]) -> (r: Option<Decimal>)
        requires
            forall|i: int| 0 <= i < bars@.len() ==> (#[trigger] bars@[i]).range_val() is Some,
            tally(bars@.len() as int, ranged_bars(bars@)) > 0
                ==> mean_where(bars@.len() as int, ranged_bars(bars@), close_positions(bars@)) is Some,
        ensures
            yields(
                r,
                tally(bars@.len() as int, ranged_bars(bars@)) > 0,
                mean_where(bars@.len() as int, ranged_bars(bars@), close_positions(bars@)),
            ),
    {
        Self::close_to_range_position(bars)
    }

    /// Bar midpoint trend: mean of consecutive midpoint (high+low)/2 differences.
    pub fn bar_midpoint_trend(bars: &[OhlcvBar]) -> (r: Option<Decimal>)
        requires
            bars@.len() >= 2 ==> mean(windows(bars@.len(), 2), midpoint_changes(bars@)) is Some,
        ensures
            yields(r, bars@.len() >= 2, mean(windows(bars@.len(), 2), midpoint_changes(bars@))),
    {
        if bars.len() < 2 {
            return None;
        }
        let sum = series::add_up_pairs(
            bars,
            |p: &OhlcvBar, b: &OhlcvBar| -> (d: Decimal)
                requires
                    minus(b.median_price_val(), p.median_price_val()) is Some,
                ensures
                    d.val() == minus(b.median_price_val(), p.median_price_val())
            { b.median_price() - p.median_price() },
            Ghost(midpoint_changes(bars@)),
        );
        Some(sum / Decimal::count((bars.len() - 1) as u64))
    }

    /// Bar spread score: mean of (high - low) / close per bar.
    pub fn bar_spread_score(bars: &[OhlcvBar]) -> (r: Option<Decimal>)
        requires
            tally(bars@.len() as int, nonzero_closes(bars@)) > 0
                ==> mean_where(
                    bars@.len() as int,
                    nonzero_closes(bars@),
                    ranges_per_close(bars@),
                ) is Some,
        ensures
            yields(
                r,
                tally(bars@.len() as int, nonzero_closes(bars@)) > 0,
                mean_where(bars@.len() as int, nonzero_closes(bars@), ranges_per_close(bars@)),
            ),
    {
        series::average(
            bars,
            |b: &OhlcvBar| -> (r: bool)
                ensures
                    r == (b.close@ != 0)
            { !b.close.is_zero() },
            |b: &OhlcvBar| -> (d: Decimal)
                requires
                    over(b.range_val(), b.close.val()) is Some,
                ensures
                    d.val() == over(b.range_val(), b.close.val())
            { b.range() / b.close },
            Ghost(nonzero_closes(bars@)),
            Ghost(ranges_per_close(bars@)),
        )
    }

    /// Close body position: mean of (close - low) / (high - low) per bar (1.0 = close at high).
    pub fn close_body_position(bars: &[OhlcvBar]) -> (r: Option<Decimal>)
        requires
            forall|i: int| 0 <= i < bars@.len() ==> (#[trigger] bars@[i]).range_val() is Some,
            tally(bars@.len() as int, ranged_bars(bars@)) > 0
                ==> mean_where(bars@.len() as int, ranged_bars(bars@), close_positions(bars@)) is Some,
        ensures
            yields(
                r,
                tally(bars@.len() as int, ranged_bars(bars@)) > 0,
                mean_where(bars@.len() as int, ranged_bars(bars@), close_positions(bars@)),
            ),
    {
        Self::close_to_range_position(bars)
    }

    /// Close wick ratio: mean of upper_wick / body per bar.
    pub fn close_wick_ratio(bars: &[OhlcvBar]) -> (r: Option<Decimal>)
        requires
            forall|i: int| 0 <= i < bars@.len() ==> (#[trigger] bars@[i]).body_val() is Some,
            tally(bars@.len() as int, nonzero_bodies(bars@)) > 0
                ==> mean_where(
                    bars@.len() as int,
                    nonzero_bodies(bars@),
                    upper_wicks_per_body(bars@),
                ) is Some,
        ensures
            yields(
                r,
                tally(bars@.len() as int, nonzero_bodies(bars@)) > 0,
                mean_where(bars@.len() as int, nonzero_bodies(bars@), upper_wicks_per_body(bars@)),
            ),
    {
        series::average(
            bars,
            |b: &OhlcvBar| -> (r: bool)
                requires
                    b.body_val() is Some,
                ensures
                    r == (!is_nought(b.body_val()))
            { !b.body().is_zero() },
            |b: &OhlcvBar| -> (d: Decimal)
                requires
                    over(b.wick_upper_val(), b.body_val()) is Some,
                ensures
                    d.val() == over(b.wick_upper_val(), b.body_val())
            { b.wick_upper() / b.body() },
            Ghost(nonzero_bodies(bars@)),
            Ghost(upper_wicks_per_body(bars@)),
        )
    }

    /// Bar high trend: mean of consecutive high differences.
    pub fn bar_high_trend(bars: &[OhlcvBar]) -> (r: Option<Decimal>)
        requires
            bars@.len() >= 2 ==> mean(windows(bars@.len(), 2), high_changes(bars@)) is Some,
        ensures
            yields(r, bars@.len() >= 2, mean(windows(bars@.len(), 2), high_changes(bars@))),
    {
        if bars.len() < 2 {
            return None;
        }
        let sum = series::add_up_pairs(
            bars,
            |p: &OhlcvBar, b: &OhlcvBar| -> (d: Decimal)
                requires
                    minus(b.high.val(), p.high.val()) is Some,
                ensures
                    d.val() == minus(b.high.val(), p.high.val())
            { b.high - p.high },
            Ghost(high_changes(bars@)),
        );
        Some(sum / Decimal::count((bars.len() - 1) as u64))
    }

    /// Bar low trend: mean of consecutive low differences.
    pub fn bar_low_trend(bars: &[OhlcvBar]) -> (r: Option<Decimal>)
        requires
            bars@.len() >= 2 ==> mean(windows(bars@.len(), 2), low_changes(bars@)) is Some,
        ensures
            yields(r, bars@.len() >= 2, mean(windows(bars@.len(), 2), low_changes(bars@))),
    {
        if bars.len() < 2 {
            return None;
        }
        let sum = series::add_up_pairs(
            bars,
            |p: &OhlcvBar, b: &OhlcvBar| -> (d: Decimal)
                requires
                    minus(b.low.val(), p.low.val()) is Some,
                ensures
                    d.val() == minus(b.low.val(), p.low.val())
            { b.low - p.low },
            Ghost(low_changes(bars@)),
        );
        Some(sum / Decimal::count((bars.len() - 1) as u64))
    }

    /// Close-high wick: mean of (high - close) / (high - low) per bar.
    pub fn close_high_wick(bars: &[OhlcvBar]) -> (r: Option<Decimal>)
        requires
            forall|i: int| 0 <= i < bars@.len() ==> (#[trigger] bars@[i]).range_val() is Some,
            tally(bars@.len() as int, ranged_bars(bars@)) > 0
                ==> mean_where(
                    bars@.len() as int,
                    ranged_bars(bars@),
                    close_to_high_shares(bars@),
                ) is Some,
        ensures
            yields(
                r,
                tally(bars@.len() as int, ranged_bars(bars@)) > 0,
                mean_where(bars@.len() as int, ranged_bars(bars@), close_to_high_shares(bars@)),
            ),
    {
        Self::close_to_high_mean(bars)
    }

    /// Bar midpoint score: mean of (midpoint - open) / range per bar.
    pub fn bar_midpoint_score(bars: &[OhlcvBar]) -> (r: Option<Decimal>)
        requires
            forall|i: int| 0 <= i < bars@.len() ==> (#[trigger] bars@[i]).range_val() is Some,
            tally(bars@.len() as int, ranged_bars(bars@)) > 0
                ==> mean_where(bars@.len() as int, ranged_bars(bars@), midpoint_leads(bars@)) is Some,
        ensures
            yields(
                r,
                tally(bars@.len() as int, ranged_bars(bars@)) > 0,
                mean_where(bars@.len() as int, ranged_bars(bars@), midpoint_leads(bars@)),
            ),
    {
        series::average(
            bars,
            |b: &OhlcvBar| -> (r: bool)
                requires
                    b.range_val() is Some,
                ensures
                    r == (!is_nought(b.range_val()))
            { !b.range().is_zero() },
            |b: &OhlcvBar| -> (d: Decimal)
                requires
                    over(minus(b.median_price_val(), b.open.val()), b.range_val()) is Some,
                ensures
                    d.val() == over(minus(b.median_price_val(), b.open.val()), b.range_val())
            { (b.median_price() - b.open) / b.range() },
            Ghost(ranged_bars(bars@)),
            Ghost(midpoint_leads(bars@)),
        )
    }

    /// Bar open efficiency: mean of |close - open| / (high - low) per bar.
    pub fn bar_open_efficiency(bars: &[OhlcvBar]) -> (r: Option<Decimal>)
        requires
            forall|i: int| 0 <= i < bars@.len() ==> (#[trigger] bars@[i]).range_val() is Some,
            tally(bars@.len() as int, ranged_bars(bars@)) > 0
                ==> mean_where(bars@.len() as int, ranged_bars(bars@), body_shares(bars@)) is Some,
        ensures
            yields(
                r,
                tally(bars@.len() as int, ranged_bars(bars@)) > 0,
                mean_where(bars@.len() as int, ranged_bars(bars@), body_shares(bars@)),
            ),
    {
        Self::mean_body_ratio(bars)
    }

    /// Bar high-low score: mean of high / low ratio minus 1.
    pub fn bar_high_low_score(bars: &[OhlcvBar]) -> (r: Option<Decimal>)
        requires
            tally(bars@.len() as int, nonzero_lows(bars@)) > 0
                ==> mean_where(
                    bars@.len() as int,
                    nonzero_lows(bars@),
                    high_low_excesses(bars@),
                ) is Some,
        ensures
            yields(
                r,
                tally(bars@.len() as int, nonzero_lows(bars@)) > 0,
                mean_where(bars@.len() as int, nonzero_lows(bars@), high_low_excesses(bars@)),
            ),
    {
        series::average(
            bars,
            |b: &OhlcvBar| -> (r: bool)
                ensures
                    r == (b.low@ != 0)
            { !b.low.is_zero() },
            |b: &OhlcvBar| -> (d: Decimal)
                requires
                    minus(over(b.high.val(), b.low.val()), whole(1)) is Some,
                ensures
                    d.val() == minus(over(b.high.val(), b.low.val()), whole(1))
            { b.high / b.low - Decimal::whole(1) },
            Ghost(nonzero_lows(bars@)),
            Ghost(high_low_excesses(bars@)),
        )
    }

    /// Bar range change: mean of range[i] - range[i-1] across consecutive bars.
    pub fn bar_range_change(bars: &[OhlcvBar]) -> (r: Option<Decimal>)
        requires
            bars@.len() >= 2 ==> mean(windows(bars@.len(), 2), range_changes(bars@)) is Some,
        ensures
            yields(r, bars@.len() >= 2, mean(windows(bars@.len(), 2), range_changes(bars@))),
    {
        Self::bar_range_trend(bars)
    }
}

} // verus!
