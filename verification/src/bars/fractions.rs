//! Fractions of bars.

use crate::bar::OhlcvBar;
use crate::bars::{
    any_gaps, close_above, close_below, closes, complete_bars, down_bars, falling_lows, flat_bars,
    gap_ups, lower_wick_bars, middle_volume, millis, moving_closes, persisting_closes, range_below,
    ranged_bars, ranges, reversing_closes, rising_closes, rising_highs, ticks, up_bars,
    upper_wick_bars, volume_above, volumes,
};
use crate::decimal::{hundredths, is_nought, minus, over, times, whole, Decimal};
use crate::fraction::{fraction_of, Fraction};
use crate::series::{self, all_some, highest, last_highest, lowest, mean, median, tally, windows};
use vstd::prelude::*;

verus! {

impl OhlcvBar {
    /// Fraction of bullish bars in a slice: `bullish_count / total`.
    ///
    /// Returns `None` if the slice is empty. Result is in `[0.0, 1.0]`.
    pub fn win_rate(bars: &[OhlcvBar]) -> (r: Option<Fraction>)
        ensures
            fraction_of(
                r,
                bars@.len() > 0,
                tally(bars@.len() as int, up_bars(bars@)),
                bars@.len() as int,
            ),
    {
        if bars.len() == 0 {
            return None;
        }
        let n: usize = series::count(
            bars,
            |b: &OhlcvBar| -> (r: bool)
                ensures
                    r == (b.close@ > b.open@)
            { b.is_bullish() },
            Ghost(up_bars(bars@)),
        );
        Some(Fraction { num: n as i128, den: bars.len() as u128 })
    }

    /// Trend strength: fraction of consecutive close-to-close moves that are upward.
    ///
    /// Returns `None` if fewer than 2 bars.
    pub fn trend_strength(bars: &[OhlcvBar]) -> (r: Option<Fraction>)
        ensures
            fraction_of(
                r,
                bars@.len() >= 2,
                tally(windows(bars@.len(), 2), rising_closes(bars@)),
                windows(bars@.len(), 2),
            ),
    {
        if bars.len() < 2 {
            return None;
        }
        let n: usize = series::count_pairs(
            bars,
            |p: &OhlcvBar, b: &OhlcvBar| -> (r: bool)
                ensures
                    r == (b.close@ > p.close@)
            { b.close > p.close },
            Ghost(rising_closes(bars@)),
        );
        Some(Fraction { num: n as i128, den: (bars.len() - 1) as u128 })
    }

    /// Fraction of bars that are bullish (close strictly greater than open).
    ///
    /// Returns `None` if the slice is empty.
    pub fn bullish_ratio(bars: &[OhlcvBar]) -> (r: Option<Fraction>)
        ensures
            fraction_of(
                r,
                bars@.len() > 0,
                tally(bars@.len() as int, up_bars(bars@)),
                bars@.len() as int,
            ),
    {
        if bars.len() == 0 {
            return None;
        }
        let n: usize = series::count(
            bars,
            |b: &OhlcvBar| -> (r: bool)
                ensures
                    r == (b.close@ > b.open@)
            { b.close > b.open },
            Ghost(up_bars(bars@)),
        );
        Some(Fraction { num: n as i128, den: bars.len() as u128 })
    }

    /// Composite candle score: fraction of bars that are bullish, have a body
    /// above 50% of range, and close above the midpoint of the bar.
    ///
    /// Returns `None` if the slice is empty.
    pub fn candle_score(bars: &[OhlcvBar]) -> (r: Option<Fraction>)
        requires
            forall|i: int|
                0 <= i < bars@.len() ==> (#[trigger] bars@[i]).close@ > bars@[i].open@
                    ==> bars@[i].range_val() is Some,
            forall|i: int|
                0 <= i < bars@.len() ==> (#[trigger] bars@[i]).close@ > bars@[i].open@
                        && !is_nought(bars@[i].range_val())
                    ==> times(bars@[i].body_val(), whole(2)) is Some,
            forall|i: int|
                0 <= i < bars@.len() ==> (#[trigger] bars@[i]).close@ > bars@[i].open@
                        && !is_nought(bars@[i].range_val())
                        && times(bars@[i].body_val(), whole(2))->0.units > bars@[i].range_val()->0.units
                    ==> bars@[i].median_price_val() is Some,
        ensures
            fraction_of(
                r,
                bars@.len() > 0,
                tally(
                    bars@.len() as int,
                    |i: int|
                        bars@[i].close@ > bars@[i].open@ && !is_nought(bars@[i].range_val())
                            && times(bars@[i].body_val(), whole(2))->0.units > bars@[i].range_val()->0.units
                            && bars@[i].close@ > bars@[i].median_price_val()->0.units,
                ),
                bars@.len() as int,
            ),
    {
        if bars.len() == 0 {
            return None;
        }
        let n: usize = series::count(
            bars,
            |b: &OhlcvBar| -> (r: bool)
                requires
                    b.close@ > b.open@ ==> b.range_val() is Some,
                    b.close@ > b.open@ && !is_nought(b.range_val()) ==> times(b.body_val(), whole(2)) is Some,
                    b.close@ > b.open@ && !is_nought(b.range_val())
                        && times(b.body_val(), whole(2))->0.units > b.range_val()->0.units
                        ==> b.median_price_val() is Some,
                ensures
                    r == (
                        b.close@ > b.open@ && !is_nought(b.range_val())
                            && times(b.body_val(), whole(2))->0.units > b.range_val()->0.units
                            && b.close@ > b.median_price_val()->0.units
                    )
            {
                b.is_bullish() && !b.range().is_zero() && b.body() * Decimal::whole(2) > b.range()
                    && b.close > b.median_price()
            },
            Ghost(
                |i: int|
                    bars@[i].close@ > bars@[i].open@ && !is_nought(bars@[i].range_val())
                        && times(bars@[i].body_val(), whole(2))->0.units > bars@[i].range_val()->0.units
                        && bars@[i].close@ > bars@[i].median_price_val()->0.units,
            ),
        );
        Some(Fraction { num: n as i128, den: bars.len() as u128 })
    }

    /// Fraction of bars where the upper wick is strictly longer than the
    /// lower wick.
    ///
    /// Returns `None` for an empty slice.
    pub fn upper_wick_dominance_fraction(bars: &[OhlcvBar]) -> (r: Option<Fraction>)
        requires
            forall|i: int| 0 <= i < bars@.len() ==> (#[trigger] bars@[i]).wick_upper_val() is Some,
            forall|i: int| 0 <= i < bars@.len() ==> (#[trigger] bars@[i]).wick_lower_val() is Some,
        ensures
            fraction_of(
                r,
                bars@.len() > 0,
                tally(bars@.len() as int, upper_wick_bars(bars@)),
                bars@.len() as int,
            ),
    {
        if bars.len() == 0 {
            return None;
        }
        let n: usize = series::count(
            bars,
            |b: &OhlcvBar| -> (r: bool)
                requires
                    b.wick_upper_val() is Some,
                    b.wick_lower_val() is Some,
                ensures
                    r == (b.wick_upper_val()->0.units > b.wick_lower_val()->0.units)
            { b.wick_upper() > b.wick_lower() },
            Ghost(upper_wick_bars(bars@)),
        );
        Some(Fraction { num: n as i128, den: bars.len() as u128 })
    }

    /// Fraction of bars (from the second onward) that are inside bars.
    ///
    /// An inside bar has a high ≤ previous high and low ≥ previous low.
    /// Returns `None` if the slice has fewer than 2 bars.
    pub fn inside_bar_fraction(bars: &[OhlcvBar]) -> (r: Option<Fraction>)
        ensures
            fraction_of(
                r,
                bars@.len() >= 2,
                tally(
                    windows(bars@.len(), 2),
                    |i: int|
                        bars@[i + 1].high@ <= bars@[i].high@ && bars@[i + 1].low@ >= bars@[i].low@,
                ),
                windows(bars@.len(), 2),
            ),
    {
        if bars.len() < 2 {
            return None;
        }
        let n: usize = series::count_pairs(
            bars,
            |p: &OhlcvBar, b: &OhlcvBar| -> (r: bool)
                ensures
                    r == (b.high@ <= p.high@ && b.low@ >= p.low@)
            { b.high <= p.high && b.low >= p.low },
            Ghost(|i: int| bars@[i + 1].high@ <= bars@[i].high@ && bars@[i + 1].low@ >= bars@[i].low@),
        );
        Some(Fraction { num: n as i128, den: (bars.len() - 1) as u128 })
    }

    /// Fraction of bars that are gap-fill bars (`is_gap_fill == true`).
    ///
    /// Returns `None` if the slice is empty.
    pub fn gap_fill_fraction(bars: &[OhlcvBar]) -> (r: Option<Fraction>)
        ensures
            fraction_of(
                r,
                bars@.len() > 0,
                tally(bars@.len() as int, |i: int| bars@[i].is_gap_fill),
                bars@.len() as int,
            ),
    {
        if bars.len() == 0 {
            return None;
        }
        let n: usize = series::count(
            bars,
            |b: &OhlcvBar| -> (r: bool)
                ensures
                    r == (b.is_gap_fill)
            { b.is_gap_fill },
            Ghost(|i: int| bars@[i].is_gap_fill),
        );
        Some(Fraction { num: n as i128, den: bars.len() as u128 })
    }

    /// Fraction of bars where the close is above the bar's median price
    /// `(high + low) / 2`.
    ///
    /// A high fraction indicates persistently bullish closes; near 0.5 means
    /// closes tend to land at the midpoint. Returns `None` for empty slices.
    pub fn close_above_median_fraction(bars: &[OhlcvBar]) -> (r: Option<Fraction>)
        requires
            forall|i: int|
                0 <= i < bars@.len() ==> (#[trigger] bars@[i]).median_price_val() is Some,
        ensures
            fraction_of(
                r,
                bars@.len() > 0,
                tally(
                    bars@.len() as int,
                    |i: int| bars@[i].close@ > bars@[i].median_price_val()->0.units,
                ),
                bars@.len() as int,
            ),
    {
        if bars.len() == 0 {
            return None;
        }
        let n: usize = series::count(
            bars,
            |b: &OhlcvBar| -> (r: bool)
                requires
                    b.median_price_val() is Some,
                ensures
                    r == (b.close@ > b.median_price_val()->0.units)
            { b.close > b.median_price() },
            Ghost(|i: int| bars@[i].close@ > bars@[i].median_price_val()->0.units),
        );
        Some(Fraction { num: n as i128, den: bars.len() as u128 })
    }

    /// Fraction of bars that are flat (open == close, i.e., doji-like).
    ///
    /// Returns `None` for empty slices.
    pub fn flat_bar_fraction(bars: &[OhlcvBar]) -> (r: Option<Fraction>)
        ensures
            fraction_of(
                r,
                bars@.len() > 0,
                tally(bars@.len() as int, flat_bars(bars@)),
                bars@.len() as int,
            ),
    {
        if bars.len() == 0 {
            return None;
        }
        let n: usize = series::count(
            bars,
            |b: &OhlcvBar| -> (r: bool)
                ensures
                    r == (b.open@ == b.close@)
            { b.open == b.close },
            Ghost(flat_bars(bars@)),
        );
        Some(Fraction { num: n as i128, den: bars.len() as u128 })
    }

    /// Fraction of bars where close > previous close (i.e., up-close bars).
    ///
    /// Returns `None` for fewer than 2 bars.
    pub fn up_close_fraction(bars: &[OhlcvBar]) -> (r: Option<Fraction>)
        ensures
            fraction_of(
                r,
                bars@.len() >= 2,
                tally(windows(bars@.len(), 2), rising_closes(bars@)),
                windows(bars@.len(), 2),
            ),
    {
        Self::trend_strength(bars)
    }

    /// Fraction of bars where `open` lies in the upper half of `[low, high]`.
    pub fn open_range_fraction(bars: &[OhlcvBar]) -> (r: Option<Fraction>)
        requires
            forall|i: int|
                0 <= i < bars@.len() ==> (#[trigger] bars@[i]).median_price_val() is Some,
        ensures
            fraction_of(
                r,
                bars@.len() > 0,
                tally(
                    bars@.len() as int,
                    |i: int| bars@[i].open@ >= bars@[i].median_price_val()->0.units,
                ),
                bars@.len() as int,
            ),
    {
        if bars.len() == 0 {
            return None;
        }
        let n: usize = series::count(
            bars,
            |b: &OhlcvBar| -> (r: bool)
                requires
                    b.median_price_val() is Some,
                ensures
                    r == (b.open@ >= b.median_price_val()->0.units)
            { b.open >= b.median_price() },
            Ghost(|i: int| bars@[i].open@ >= bars@[i].median_price_val()->0.units),
        );
        Some(Fraction { num: n as i128, den: bars.len() as u128 })
    }

    /// Fraction of bars where the close is strictly equal to the high (outside-bar bullish close).
    pub fn close_at_high_fraction(bars: &[OhlcvBar]) -> (r: Option<Fraction>)
        ensures
            fraction_of(
                r,
                bars@.len() > 0,
                tally(bars@.len() as int, |i: int| bars@[i].close@ == bars@[i].high@),
                bars@.len() as int,
            ),
    {
        if bars.len() == 0 {
            return None;
        }
        let n: usize = series::count(
            bars,
            |b: &OhlcvBar| -> (r: bool)
                ensures
                    r == (b.close@ == b.high@)
            { b.close == b.high },
            Ghost(|i: int| bars@[i].close@ == bars@[i].high@),
        );
        Some(Fraction { num: n as i128, den: bars.len() as u128 })
    }

    /// Fraction of bars where the close is strictly equal to the low (bearish exhaustion bar).
    pub fn close_at_low_fraction(bars: &[OhlcvBar]) -> (r: Option<Fraction>)
        ensures
            fraction_of(
                r,
                bars@.len() > 0,
                tally(bars@.len() as int, |i: int| bars@[i].close@ == bars@[i].low@),
                bars@.len() as int,
            ),
    {
        if bars.len() == 0 {
            return None;
        }
        let n: usize = series::count(
            bars,
            |b: &OhlcvBar| -> (r: bool)
                ensures
                    r == (b.close@ == b.low@)
            { b.close == b.low },
            Ghost(|i: int| bars@[i].close@ == bars@[i].low@),
        );
        Some(Fraction { num: n as i128, den: bars.len() as u128 })
    }

    /// Fraction of bars with zero volume.
    pub fn zero_volume_fraction(bars: &[OhlcvBar]) -> (r: Option<Fraction>)
        ensures
            fraction_of(
                r,
                bars@.len() > 0,
                tally(bars@.len() as int, |i: int| bars@[i].volume@ == 0),
                bars@.len() as int,
            ),
    {
        if bars.len() == 0 {
            return None;
        }
        let n: usize = series::count(
            bars,
            |b: &OhlcvBar| -> (r: bool)
                ensures
                    r == (b.volume@ == 0)
            { b.volume.is_zero() },
            Ghost(|i: int| bars@[i].volume@ == 0),
        );
        Some(Fraction { num: n as i128, den: bars.len() as u128 })
    }

    /// Fraction of bars that are complete (is_complete == true).
    ///
    /// Returns `None` for empty slices.
    pub fn complete_fraction(bars: &[OhlcvBar]) -> (r: Option<Fraction>)
        ensures
            fraction_of(
                r,
                bars@.len() > 0,
                tally(bars@.len() as int, complete_bars(bars@)),
                bars@.len() as int,
            ),
    {
        if bars.len() == 0 {
            return None;
        }
        let n: usize = series::count(
            bars,
            |b: &OhlcvBar| -> (r: bool)
                ensures
                    r == (b.is_complete)
            { b.is_complete },
            Ghost(complete_bars(bars@)),
        );
        Some(Fraction { num: n as i128, den: bars.len() as u128 })
    }

    /// Fraction of bars where `close` is higher than the previous bar's `close`.
    ///
    /// Returns `None` for fewer than 2 bars.
    pub fn bar_trend_strength(bars: &[OhlcvBar]) -> (r: Option<Fraction>)
        ensures
            fraction_of(
                r,
                bars@.len() >= 2,
                tally(windows(bars@.len(), 2), rising_closes(bars@)),
                windows(bars@.len(), 2),
            ),
    {
        Self::trend_strength(bars)
    }

    /// Fraction of bars where `close < open` (down-body bars).
    /// Returns `None` for an empty slice.
    pub fn down_body_fraction(bars: &[OhlcvBar]) -> (r: Option<Fraction>)
        ensures
            fraction_of(
                r,
                bars@.len() > 0,
                tally(bars@.len() as int, down_bars(bars@)),
                bars@.len() as int,
            ),
    {
        if bars.len() == 0 {
            return None;
        }
        let n: usize = series::count(
            bars,
            |b: &OhlcvBar| -> (r: bool)
                ensures
                    r == (b.close@ < b.open@)
            { b.close < b.open },
            Ghost(down_bars(bars@)),
        );
        Some(Fraction { num: n as i128, den: bars.len() as u128 })
    }

    /// Fraction of bars where close > open of the *same* bar (bullish bars)
    /// that also have a higher close than the previous bar (price recovery).
    /// Returns `None` for fewer than 2 bars.
    pub fn price_recovery_ratio(bars: &[OhlcvBar]) -> (r: Option<Fraction>)
        ensures
            fraction_of(
                r,
                bars@.len() >= 2,
                tally(
                    windows(bars@.len(), 2),
                    |i: int|
                        bars@[i + 1].close@ > bars@[i + 1].open@
                            && bars@[i + 1].close@ > bars@[i].close@,
                ),
                windows(bars@.len(), 2),
            ),
    {
        if bars.len() < 2 {
            return None;
        }
        let n: usize = series::count_pairs(
            bars,
            |p: &OhlcvBar, b: &OhlcvBar| -> (r: bool)
                ensures
                    r == (b.close@ > b.open@ && b.close@ > p.close@)
            { b.close > b.open && b.close > p.close },
            Ghost(
                |i: int| bars@[i + 1].close@ > bars@[i + 1].open@ && bars@[i + 1].close@ > bars@[i].close@,
            ),
        );
        Some(Fraction { num: n as i128, den: (bars.len() - 1) as u128 })
    }

    /// Fraction of bars that close below their open (bearish candles).
    /// Returns `None` for an empty slice.
    pub fn bearish_close_fraction(bars: &[OhlcvBar]) -> (r: Option<Fraction>)
        ensures
            fraction_of(
                r,
                bars@.len() > 0,
                tally(bars@.len() as int, down_bars(bars@)),
                bars@.len() as int,
            ),
    {
        Self::down_body_fraction(bars)
    }

    /// Fraction of bars where open != close of the prior bar (open gap).
    /// Returns `None` for fewer than 2 bars.
    pub fn open_gap_frequency(bars: &[OhlcvBar]) -> (r: Option<Fraction>)
        ensures
            fraction_of(
                r,
                bars@.len() >= 2,
                tally(windows(bars@.len(), 2), any_gaps(bars@)),
                windows(bars@.len(), 2),
            ),
    {
        if bars.len() < 2 {
            return None;
        }
        let n: usize = series::count_pairs(
            bars,
            |p: &OhlcvBar, b: &OhlcvBar| -> (r: bool)
                ensures
                    r == (b.open@ != p.close@)
            { b.open != p.close },
            Ghost(any_gaps(bars@)),
        );
        Some(Fraction { num: n as i128, den: (bars.len() - 1) as u128 })
    }

    /// Fraction of bars where close > open (bullish). Returns `None` for empty input.
    pub fn body_direction_score(bars: &[OhlcvBar]) -> (r: Option<Fraction>)
        ensures
            fraction_of(
                r,
                bars@.len() > 0,
                tally(bars@.len() as int, up_bars(bars@)),
                bars@.len() as int,
            ),
    {
        Self::bullish_ratio(bars)
    }

    /// Fraction of bars where close > open. Alias providing explicit naming.
    /// Returns `None` for empty input.
    pub fn close_above_open_pct(bars: &[OhlcvBar]) -> (r: Option<Fraction>)
        ensures
            fraction_of(
                r,
                bars@.len() > 0,
                tally(bars@.len() as int, up_bars(bars@)),
                bars@.len() as int,
            ),
    {
        Self::bullish_ratio(bars)
    }

    /// Bar trend score: fraction of consecutive close-to-close pairs that are rising.
    /// Returns `None` for fewer than 2 bars.
    pub fn bar_trend_score(bars: &[OhlcvBar]) -> (r: Option<Fraction>)
        ensures
            fraction_of(
                r,
                bars@.len() >= 2,
                tally(windows(bars@.len(), 2), rising_closes(bars@)),
                windows(bars@.len(), 2),
            ),
    {
        Self::trend_strength(bars)
    }

    /// Fraction of bars where open is between the prior bar's open and close
    /// (partial gap fill). Returns `None` for fewer than 2 bars.
    pub fn bar_gap_fill_ratio(bars: &[OhlcvBar]) -> (r: Option<Fraction>)
        ensures
            fraction_of(
                r,
                bars@.len() >= 2,
                tally(
                    windows(bars@.len(), 2),
                    |i: int|
                        bars@[i + 1].open@ >= bars@[i].body_low_val()->0.units
                            && bars@[i + 1].open@ <= bars@[i].body_high_val()->0.units,
                ),
                windows(bars@.len(), 2),
            ),
    {
        if bars.len() < 2 {
            return None;
        }
        let n: usize = series::count_pairs(
            bars,
            |p: &OhlcvBar, b: &OhlcvBar| -> (r: bool)
                ensures
                    r == (b.open@ >= p.body_low_val()->0.units && b.open@ <= p.body_high_val()->0.units)
            { b.open >= p.body_low() && b.open <= p.body_high() },
            Ghost(
                |i: int|
                    bars@[i + 1].open@ >= bars@[i].body_low_val()->0.units
                        && bars@[i + 1].open@ <= bars@[i].body_high_val()->0.units,
            ),
        );
        Some(Fraction { num: n as i128, den: (bars.len() - 1) as u128 })
    }

    /// Open range bias: fraction of bars where open is above bar midpoint.
    pub fn open_range_bias(bars: &[OhlcvBar]) -> (r: Option<Fraction>)
        requires
            forall|i: int|
                0 <= i < bars@.len() ==> (#[trigger] bars@[i]).median_price_val() is Some,
        ensures
            fraction_of(
                r,
                bars@.len() > 0,
                tally(bars@.len() as int, |i: int| bars@[i].open@ > bars@[i].median_price_val()->0.units),
                bars@.len() as int,
            ),
    {
        if bars.len() == 0 {
            return None;
        }
        let n: usize = series::count(
            bars,
            |b: &OhlcvBar| -> (r: bool)
                requires
                    b.median_price_val() is Some,
                ensures
                    r == (b.open@ > b.median_price_val()->0.units)
            { b.open > b.median_price() },
            Ghost(|i: int| bars@[i].open@ > bars@[i].median_price_val()->0.units),
        );
        Some(Fraction { num: n as i128, den: bars.len() as u128 })
    }

    /// Fraction of bars where open falls within the prior bar's range (gap fill).
    pub fn close_gap_ratio(bars: &[OhlcvBar]) -> (r: Option<Fraction>)
        ensures
            fraction_of(
                r,
                bars@.len() >= 2,
                tally(
                    windows(bars@.len(), 2),
                    |i: int|
                        bars@[i + 1].open@ >= bars@[i].low@ && bars@[i + 1].open@ <= bars@[i].high@,
                ),
                windows(bars@.len(), 2),
            ),
    {
        if bars.len() < 2 {
            return None;
        }
        let n: usize = series::count_pairs(
            bars,
            |p: &OhlcvBar, b: &OhlcvBar| -> (r: bool)
                ensures
                    r == (b.open@ >= p.low@ && b.open@ <= p.high@)
            { b.open >= p.low && b.open <= p.high },
            Ghost(
                |i: int| bars@[i + 1].open@ >= bars@[i].low@ && bars@[i + 1].open@ <= bars@[i].high@,
            ),
        );
        Some(Fraction { num: n as i128, den: (bars.len() - 1) as u128 })
    }

    /// Bar trend persistence: fraction of bars that continue the prior bar's direction.
    pub fn bar_trend_persistence(bars: &[OhlcvBar]) -> (r: Option<Fraction>)
        ensures
            fraction_of(
                r,
                bars@.len() >= 2,
                tally(
                    windows(bars@.len(), 2),
                    |i: int|
                        (bars@[i].close@ >= bars@[i].open@)
                            == (bars@[i + 1].close@ >= bars@[i + 1].open@),
                ),
                windows(bars@.len(), 2),
            ),
    {
        if bars.len() < 2 {
            return None;
        }
        let n: usize = series::count_pairs(
            bars,
            |p: &OhlcvBar, b: &OhlcvBar| -> (r: bool)
                ensures
                    r == ((p.close@ >= p.open@) == (b.close@ >= b.open@))
            { (p.close >= p.open) == (b.close >= b.open) },
            Ghost(
                |i: int| (bars@[i].close@ >= bars@[i].open@) == (bars@[i + 1].close@ >= bars@[i + 1].open@),
            ),
        );
        Some(Fraction { num: n as i128, den: (bars.len() - 1) as u128 })
    }

    /// Fraction of bars where close exceeds the prior bar's high.
    pub fn close_above_prior_high(bars: &[OhlcvBar]) -> (r: Option<Fraction>)
        ensures
            fraction_of(
                r,
                bars@.len() >= 2,
                tally(windows(bars@.len(), 2), |i: int| bars@[i + 1].close@ > bars@[i].high@),
                windows(bars@.len(), 2),
            ),
    {
        if bars.len() < 2 {
            return None;
        }
        let n: usize = series::count_pairs(
            bars,
            |p: &OhlcvBar, b: &OhlcvBar| -> (r: bool)
                ensures
                    r == (b.close@ > p.high@)
            { b.close > p.high },
            Ghost(|i: int| bars@[i + 1].close@ > bars@[i].high@),
        );
        Some(Fraction { num: n as i128, den: (bars.len() - 1) as u128 })
    }

    /// Momentum of open prices: fraction of bars where open[i] > open[i-1].
    pub fn open_momentum_score(bars: &[OhlcvBar]) -> (r: Option<Fraction>)
        ensures
            fraction_of(
                r,
                bars@.len() >= 2,
                tally(windows(bars@.len(), 2), |i: int| bars@[i + 1].open@ > bars@[i].open@),
                windows(bars@.len(), 2),
            ),
    {
        if bars.len() < 2 {
            return None;
        }
        let n: usize = series::count_pairs(
            bars,
            |p: &OhlcvBar, b: &OhlcvBar| -> (r: bool)
                ensures
                    r == (b.open@ > p.open@)
            { b.open > p.open },
            Ghost(|i: int| bars@[i + 1].open@ > bars@[i].open@),
        );
        Some(Fraction { num: n as i128, den: (bars.len() - 1) as u128 })
    }

    /// Fraction of bars where high[i] > high[i-1].
    pub fn high_persistence(bars: &[OhlcvBar]) -> (r: Option<Fraction>)
        ensures
            fraction_of(
                r,
                bars@.len() >= 2,
                tally(windows(bars@.len(), 2), rising_highs(bars@)),
                windows(bars@.len(), 2),
            ),
    {
        if bars.len() < 2 {
            return None;
        }
        let n: usize = series::count_pairs(
            bars,
            |p: &OhlcvBar, b: &OhlcvBar| -> (r: bool)
                ensures
                    r == (b.high@ > p.high@)
            { b.high > p.high },
            Ghost(rising_highs(bars@)),
        );
        Some(Fraction { num: n as i128, den: (bars.len() - 1) as u128 })
    }

    /// Fraction of bars where low[i] < low[i-1] (new lows).
    pub fn low_persistence(bars: &[OhlcvBar]) -> (r: Option<Fraction>)
        ensures
            fraction_of(
                r,
                bars@.len() >= 2,
                tally(windows(bars@.len(), 2), falling_lows(bars@)),
                windows(bars@.len(), 2),
            ),
    {
        if bars.len() < 2 {
            return None;
        }
        let n: usize = series::count_pairs(
            bars,
            |p: &OhlcvBar, b: &OhlcvBar| -> (r: bool)
                ensures
                    r == (b.low@ < p.low@)
            { b.low < p.low },
            Ghost(falling_lows(bars@)),
        );
        Some(Fraction { num: n as i128, den: (bars.len() - 1) as u128 })
    }

    /// Open-close persistence: fraction of bars where open equals previous close.
    pub fn open_close_persistence(bars: &[OhlcvBar]) -> (r: Option<Fraction>)
        ensures
            fraction_of(
                r,
                bars@.len() >= 2,
                tally(windows(bars@.len(), 2), |i: int| bars@[i + 1].open@ == bars@[i].close@),
                windows(bars@.len(), 2),
            ),
    {
        if bars.len() < 2 {
            return None;
        }
        let n: usize = series::count_pairs(
            bars,
            |p: &OhlcvBar, b: &OhlcvBar| -> (r: bool)
                ensures
                    r == (b.open@ == p.close@)
            { b.open == p.close },
            Ghost(|i: int| bars@[i + 1].open@ == bars@[i].close@),
        );
        Some(Fraction { num: n as i128, den: (bars.len() - 1) as u128 })
    }

    /// Open gap direction: fraction of bars where open > prior close (gap up).
    pub fn open_gap_direction(bars: &[OhlcvBar]) -> (r: Option<Fraction>)
        ensures
            fraction_of(
                r,
                bars@.len() >= 2,
                tally(windows(bars@.len(), 2), gap_ups(bars@)),
                windows(bars@.len(), 2),
            ),
    {
        if bars.len() < 2 {
            return None;
        }
        let n: usize = series::count_pairs(
            bars,
            |p: &OhlcvBar, b: &OhlcvBar| -> (r: bool)
                ensures
                    r == (b.open@ > p.close@)
            { b.open > p.close },
            Ghost(gap_ups(bars@)),
        );
        Some(Fraction { num: n as i128, den: (bars.len() - 1) as u128 })
    }

    /// Bar close persistence: fraction of bars whose close is above the open of the prior bar.
    pub fn bar_close_persistence(bars: &[OhlcvBar]) -> (r: Option<Fraction>)
        ensures
            fraction_of(
                r,
                bars@.len() >= 2,
                tally(windows(bars@.len(), 2), |i: int| bars@[i + 1].close@ > bars@[i].open@),
                windows(bars@.len(), 2),
            ),
    {
        if bars.len() < 2 {
            return None;
        }
        let n: usize = series::count_pairs(
            bars,
            |p: &OhlcvBar, b: &OhlcvBar| -> (r: bool)
                ensures
                    r == (b.close@ > p.open@)
            { b.close > p.open },
            Ghost(|i: int| bars@[i + 1].close@ > bars@[i].open@),
        );
        Some(Fraction { num: n as i128, den: (bars.len() - 1) as u128 })
    }

    /// Bar open persistence: fraction where open[i] > open[i-1].
    pub fn bar_open_persistence(bars: &[OhlcvBar]) -> (r: Option<Fraction>)
        ensures
            fraction_of(
                r,
                bars@.len() >= 2,
                tally(windows(bars@.len(), 2), |i: int| bars@[i + 1].open@ > bars@[i].open@),
                windows(bars@.len(), 2),
            ),
    {
        Self::open_momentum_score(bars)
    }

    /// Range contraction ratio: fraction of bars where range < prior range.
    pub fn range_contraction_ratio(bars: &[OhlcvBar]) -> (r: Option<Fraction>)
        requires
            forall|i: int| 1 <= i < bars@.len() ==> (#[trigger] bars@[i]).range_val() is Some,
            forall|i: int|
                0 <= i < windows(bars@.len(), 2) ==> (#[trigger] bars@[i]).range_val() is Some,
        ensures
            fraction_of(
                r,
                bars@.len() >= 2,
                tally(
                    windows(bars@.len(), 2),
                    |i: int| bars@[i + 1].range_val()->0.units < bars@[i].range_val()->0.units,
                ),
                windows(bars@.len(), 2),
            ),
    {
        if bars.len() < 2 {
            return None;
        }
        let n: usize = series::count_pairs(
            bars,
            |p: &OhlcvBar, b: &OhlcvBar| -> (r: bool)
                requires
                    b.range_val() is Some,
                    p.range_val() is Some,
                ensures
                    r == (b.range_val()->0.units < p.range_val()->0.units)
            { b.range() < p.range() },
            Ghost(|i: int| bars@[i + 1].range_val()->0.units < bars@[i].range_val()->0.units),
        );
        Some(Fraction { num: n as i128, den: (bars.len() - 1) as u128 })
    }

    /// Fraction of bars where body size exceeds 50% of the bar's total range.
    ///
    /// Returns `None` if the slice is empty or all bars have zero range.
    pub fn body_consistency(bars: &[OhlcvBar]) -> (r: Option<Fraction>)
        requires
            forall|i: int| 0 <= i < bars@.len() ==> (#[trigger] bars@[i]).range_val() is Some,
            forall|i: int|
                0 <= i < bars@.len() && !is_nought((#[trigger] bars@[i]).range_val()) ==> times(
                    bars@[i].body_val(),
                    whole(2),
                ) is Some,
        ensures
            ({
                let n = tally(bars@.len() as int, ranged_bars(bars@));
                fraction_of(
                    r,
                    n > 0,
                    tally(
                        bars@.len() as int,
                        |i: int|
                            !is_nought(bars@[i].range_val()) && times(
                                bars@[i].body_val(),
                                whole(2),
                            )->0.units > bars@[i].range_val()->0.units,
                    ),
                    n,
                )
            }),
    {
        let valid: usize = series::count(
            bars,
            |b: &OhlcvBar| -> (r: bool)
                requires
                    b.range_val() is Some,
                ensures
                    r == (!is_nought(b.range_val()))
            { !b.range().is_zero() },
            Ghost(ranged_bars(bars@)),
        );
        if valid == 0 {
            return None;
        }
        let consistent: usize = series::count(
            bars,
            |b: &OhlcvBar| -> (r: bool)
                requires
                    b.range_val() is Some,
                    !is_nought(b.range_val()) ==> times(b.body_val(), whole(2)) is Some,
                ensures
                    r == (!is_nought(b.range_val()) && times(b.body_val(), whole(2))->0.units
                        > b.range_val()->0.units)
            { !b.range().is_zero() && b.body() * Decimal::whole(2) > b.range() },
            Ghost(
                |i: int|
                    !is_nought(bars@[i].range_val()) && times(bars@[i].body_val(), whole(2))->0.units
                        > bars@[i].range_val()->0.units,
            ),
        );
        Some(Fraction { num: consistent as i128, den: valid as u128 })
    }

    /// Ratio of bullish bars to bearish bars in the slice.
    ///
    /// Returns `None` if there are no bearish bars.
    pub fn up_down_ratio(bars: &[OhlcvBar]) -> (r: Option<Fraction>)
        ensures
            ({
                let up = tally(bars@.len() as int, up_bars(bars@));
                let down = tally(bars@.len() as int, down_bars(bars@));
                fraction_of(r, down > 0, up, down)
            }),
    {
        let down: usize = Self::bearish_count(bars);
        if down == 0 {
            return None;
        }
        Some(Fraction { num: Self::bullish_count(bars) as i128, den: down as u128 })
    }

    /// Ratio of up-bars (close > open) to down-bars (close < open).
    /// Returns `None` if no down-bars exist.
    pub fn up_down_bar_ratio(bars: &[OhlcvBar]) -> (r: Option<Fraction>)
        ensures
            ({
                let up = tally(bars@.len() as int, up_bars(bars@));
                let down = tally(bars@.len() as int, down_bars(bars@));
                fraction_of(r, down > 0, up, down)
            }),
    {
        Self::up_down_ratio(bars)
    }

    /// Rolling close momentum score: fraction of bars where close is above the
    /// simple average close of the window.
    ///
    /// Returns `None` if the slice is empty or the mean cannot be computed.
    pub fn close_momentum_score(bars: &[OhlcvBar]) -> (r: Option<Fraction>)
        requires
            bars@.len() > 0 ==> mean(bars@.len() as int, closes(bars@)) is Some,
        ensures
            fraction_of(
                r,
                bars@.len() > 0,
                tally(
                    bars@.len() as int,
                    close_above(bars@, mean(bars@.len() as int, closes(bars@))->0.units),
                ),
                bars@.len() as int,
            ),
    {
        let mean = Self::mean_close(bars)?;
        let n: usize = series::count(
            bars,
            |b: &OhlcvBar| -> (r: bool)
                ensures
                    r == (b.close@ > mean@)
            { b.close > mean },
            Ghost(close_above(bars@, mean@)),
        );
        Some(Fraction { num: n as i128, den: bars.len() as u128 })
    }

    /// Fraction of bars whose volume exceeds the mean bar volume.
    ///
    /// Returns `None` for an empty slice.
    pub fn volume_above_mean_fraction(bars: &[OhlcvBar]) -> (r: Option<Fraction>)
        requires
            bars@.len() > 0 ==> mean(bars@.len() as int, volumes(bars@)) is Some,
        ensures
            fraction_of(
                r,
                bars@.len() > 0,
                tally(
                    bars@.len() as int,
                    volume_above(bars@, mean(bars@.len() as int, volumes(bars@))->0.units),
                ),
                bars@.len() as int,
            ),
    {
        let n: usize = Self::volume_above_avg_count(bars)?;
        Some(Fraction { num: n as i128, den: bars.len() as u128 })
    }

    /// Fraction of bars whose volume exceeds the median bar volume.
    ///
    /// Returns `None` for an empty slice.
    pub fn volume_above_median_fraction(bars: &[OhlcvBar]) -> (r: Option<Fraction>)
        requires
            bars@.len() > 0 ==> median(bars@.len() as int, volumes(bars@)) is Some,
        ensures
            fraction_of(
                r,
                bars@.len() > 0,
                tally(
                    bars@.len() as int,
                    volume_above(bars@, median(bars@.len() as int, volumes(bars@))->0.units),
                ),
                bars@.len() as int,
            ),
    {
        let median = Self::median_volume(bars)?;
        let n: usize = series::count(
            bars,
            |b: &OhlcvBar| -> (r: bool)
                ensures
                    r == (b.volume@ > median@)
            { b.volume > median },
            Ghost(volume_above(bars@, median@)),
        );
        Some(Fraction { num: n as i128, den: bars.len() as u128 })
    }

    /// Fraction of bars with range below the median range (consolidating bars).
    ///
    /// Returns `None` for an empty slice.
    pub fn bar_consolidation_ratio(bars: &[OhlcvBar]) -> (r: Option<Fraction>)
        requires
            all_some(bars@.len() as int, ranges(bars@)),
            bars@.len() > 0 ==> median(bars@.len() as int, ranges(bars@)) is Some,
        ensures
            fraction_of(
                r,
                bars@.len() > 0,
                tally(
                    bars@.len() as int,
                    range_below(bars@, median(bars@.len() as int, ranges(bars@))->0.units),
                ),
                bars@.len() as int,
            ),
    {
        let median = Self::median_range(bars)?;
        assert forall|i: int| 0 <= i < bars@.len() implies (#[trigger] bars@[i]).range_val() is Some by {
            assert(ranges(bars@)(i) is Some);
        }
        let n: usize = series::count(
            bars,
            |b: &OhlcvBar| -> (r: bool)
                requires
                    b.range_val() is Some,
                ensures
                    r == (b.range_val()->0.units < median@)
            { b.range() < median },
            Ghost(range_below(bars@, median@)),
        );
        Some(Fraction { num: n as i128, den: bars.len() as u128 })
    }

    /// Fraction of bars where volume is in the upper half of the volume range.
    ///
    /// Returns `None` for empty slices or when all volumes are equal.
    pub fn high_volume_fraction(bars: &[OhlcvBar]) -> (r: Option<Fraction>)
        requires
            bars@.len() > 0 ==> middle_volume(bars@) is Some,
        ensures
            fraction_of(
                r,
                bars@.len() > 0 && last_highest(bars@.len() as int, volumes(bars@))->0.units != lowest(
                    bars@.len() as int,
                    volumes(bars@),
                )->0.units,
                tally(bars@.len() as int, volume_above(bars@, middle_volume(bars@)->0.units)),
                bars@.len() as int,
            ),
    {
        let max_vol = Self::max_bar_volume(bars)?;
        let min_vol = Self::min_bar_volume(bars)?;
        let mid = (max_vol + min_vol) / Decimal::whole(2);
        if max_vol == min_vol {
            return None;
        }
        let n: usize = series::count(
            bars,
            |b: &OhlcvBar| -> (r: bool)
                ensures
                    r == (b.volume@ > mid@)
            { b.volume > mid },
            Ghost(volume_above(bars@, mid@)),
        );
        Some(Fraction { num: n as i128, den: bars.len() as u128 })
    }

    /// Fraction of bars where `(close − low) / (high − low)` exceeds 0.5 (close in upper
    /// half of range).
    ///
    /// Bars with zero range are excluded. Returns `None` when no valid bars remain.
    pub fn close_range_fraction(bars: &[OhlcvBar]) -> (r: Option<Fraction>)
        requires
            forall|i: int|
                0 <= i < bars@.len() && (#[trigger] bars@[i]).high@ > bars@[i].low@ ==> over(
                    minus(bars@[i].close.val(), bars@[i].low.val()),
                    bars@[i].range_val(),
                ) is Some,
        ensures
            ({
                let n = tally(bars@.len() as int, |i: int| bars@[i].high@ > bars@[i].low@);
                fraction_of(
                    r,
                    n > 0,
                    tally(
                        bars@.len() as int,
                        |i: int|
                            bars@[i].high@ > bars@[i].low@ && over(
                                minus(bars@[i].close.val(), bars@[i].low.val()),
                                bars@[i].range_val(),
                            )->0.units > hundredths(50)->0.units,
                    ),
                    n,
                )
            }),
    {
        let valid: usize = series::count(
            bars,
            |b: &OhlcvBar| -> (r: bool)
                ensures
                    r == (b.high@ > b.low@)
            { b.high > b.low },
            Ghost(|i: int| bars@[i].high@ > bars@[i].low@),
        );
        if valid == 0 {
            return None;
        }
        let upper: usize = series::count(
            bars,
            |b: &OhlcvBar| -> (r: bool)
                requires
                    b.high@ > b.low@ ==> over(
                        minus(b.close.val(), b.low.val()),
                        b.range_val(),
                    ) is Some,
                ensures
                    r == (b.high@ > b.low@ && over(
                        minus(b.close.val(), b.low.val()),
                        b.range_val(),
                    )->0.units > hundredths(50)->0.units)
            { b.high > b.low && (b.close - b.low) / b.range() > Decimal::hundredths(50) },
            Ghost(
                |i: int|
                    bars@[i].high@ > bars@[i].low@ && over(
                        minus(bars@[i].close.val(), bars@[i].low.val()),
                        bars@[i].range_val(),
                    )->0.units > hundredths(50)->0.units,
            ),
        );
        Some(Fraction { num: upper as i128, den: valid as u128 })
    }

    /// Candle persistence: fraction of bars where the close direction matches
    /// the prior bar's close direction. Returns `None` for fewer than 3 bars.
    ///
    /// Only bars that follow two moves of the close count; returns `None` where
    /// there is none.
    pub fn candle_persistence(bars: &[OhlcvBar]) -> (r: Option<Fraction>)
        ensures
            ({
                let n = tally(windows(bars@.len(), 3), moving_closes(bars@));
                fraction_of(r, n > 0, tally(windows(bars@.len(), 3), persisting_closes(bars@)), n)
            }),
    {
        let eligible: usize = series::count_triples(
            bars,
            |x: &OhlcvBar, y: &OhlcvBar, z: &OhlcvBar| -> (r: bool)
                ensures
                    r == (y.close@ != x.close@ && z.close@ != y.close@)
            { y.close != x.close && z.close != y.close },
            Ghost(moving_closes(bars@)),
        );
        if eligible == 0 {
            return None;
        }
        let n: usize = series::count_triples(
            bars,
            |x: &OhlcvBar, y: &OhlcvBar, z: &OhlcvBar| -> (r: bool)
                ensures
                    r == (
                        y.close@ > x.close@ && z.close@ > y.close@
                            || y.close@ < x.close@ && z.close@ < y.close@
                    )
            { y.close > x.close && z.close > y.close || y.close < x.close && z.close < y.close },
            Ghost(persisting_closes(bars@)),
        );
        Some(Fraction { num: n as i128, den: eligible as u128 })
    }

    /// Fraction of bars where the close direction reverses relative to the prior bar.
    /// Returns `None` for fewer than 3 bars.
    ///
    /// Only bars that follow two moves of the close count; returns `None` where
    /// there is none.
    pub fn close_reversal_rate(bars: &[OhlcvBar]) -> (r: Option<Fraction>)
        ensures
            ({
                let n = tally(windows(bars@.len(), 3), moving_closes(bars@));
                fraction_of(r, n > 0, tally(windows(bars@.len(), 3), reversing_closes(bars@)), n)
            }),
    {
        let eligible: usize = series::count_triples(
            bars,
            |x: &OhlcvBar, y: &OhlcvBar, z: &OhlcvBar| -> (r: bool)
                ensures
                    r == (y.close@ != x.close@ && z.close@ != y.close@)
            { y.close != x.close && z.close != y.close },
            Ghost(moving_closes(bars@)),
        );
        if eligible == 0 {
            return None;
        }
        let n: usize = series::count_triples(
            bars,
            |x: &OhlcvBar, y: &OhlcvBar, z: &OhlcvBar| -> (r: bool)
                ensures
                    r == (
                        y.close@ > x.close@ && z.close@ < y.close@
                            || y.close@ < x.close@ && z.close@ > y.close@
                    )
            { y.close > x.close && z.close < y.close || y.close < x.close && z.close > y.close },
            Ghost(reversing_closes(bars@)),
        );
        Some(Fraction { num: n as i128, den: eligible as u128 })
    }

    /// Net shadow direction score: fraction of bars with longer upper shadow minus
    /// fraction with longer lower shadow. Range `[-1, 1]`.
    /// Returns `None` for empty input.
    pub fn net_shadow_direction(bars: &[OhlcvBar]) -> (r: Option<Fraction>)
        requires
            forall|i: int| 0 <= i < bars@.len() ==> (#[trigger] bars@[i]).wick_upper_val() is Some,
            forall|i: int| 0 <= i < bars@.len() ==> (#[trigger] bars@[i]).wick_lower_val() is Some,
        ensures
            fraction_of(
                r,
                bars@.len() > 0,
                tally(bars@.len() as int, upper_wick_bars(bars@)) - tally(
                    bars@.len() as int,
                    lower_wick_bars(bars@),
                ),
                bars@.len() as int,
            ),
    {
        if bars.len() == 0 {
            return None;
        }
        let up: usize = series::count(
            bars,
            |b: &OhlcvBar| -> (r: bool)
                requires
                    b.wick_upper_val() is Some,
                    b.wick_lower_val() is Some,
                ensures
                    r == (b.wick_upper_val()->0.units > b.wick_lower_val()->0.units)
            { b.wick_upper() > b.wick_lower() },
            Ghost(upper_wick_bars(bars@)),
        );
        let down: usize = series::count(
            bars,
            |b: &OhlcvBar| -> (r: bool)
                requires
                    b.wick_lower_val() is Some,
                    b.wick_upper_val() is Some,
                ensures
                    r == (b.wick_lower_val()->0.units > b.wick_upper_val()->0.units)
            { b.wick_lower() > b.wick_upper() },
            Ghost(lower_wick_bars(bars@)),
        );
        Some(Fraction { num: up as i128 - down as i128, den: bars.len() as u128 })
    }

    /// Net fraction of bars that are bullish minus bearish.
    pub fn body_trend_direction(bars: &[OhlcvBar]) -> (r: Option<Fraction>)
        ensures
            fraction_of(
                r,
                bars@.len() > 0,
                tally(bars@.len() as int, up_bars(bars@)) - tally(
                    bars@.len() as int,
                    down_bars(bars@),
                ),
                bars@.len() as int,
            ),
    {
        if bars.len() == 0 {
            return None;
        }
        let up: usize = series::count(
            bars,
            |b: &OhlcvBar| -> (r: bool)
                ensures
                    r == (b.close@ > b.open@)
            { b.close > b.open },
            Ghost(up_bars(bars@)),
        );
        let down: usize = series::count(
            bars,
            |b: &OhlcvBar| -> (r: bool)
                ensures
                    r == (b.close@ < b.open@)
            { b.close < b.open },
            Ghost(down_bars(bars@)),
        );
        Some(Fraction { num: up as i128 - down as i128, den: bars.len() as u128 })
    }

    /// Rank of last close among all closes (0.0 = lowest, 1.0 = highest).
    ///
    /// The rank is the number of closes below the last one, out of the number of
    /// the others. Returns `None` for an empty slice.
    pub fn bar_close_rank(bars: &[OhlcvBar]) -> (r: Option<Fraction>)
        ensures
            fraction_of(
                r,
                bars@.len() > 0,
                tally(bars@.len() as int, close_below(bars@, bars@[bars@.len() - 1].close@)),
                if bars@.len() > 1 {
                    bars@.len() - 1
                } else {
                    1
                },
            ),
    {
        if bars.len() == 0 {
            return None;
        }
        let last = bars[bars.len() - 1].close;
        let n: usize = series::count(
            bars,
            |b: &OhlcvBar| -> (r: bool)
                ensures
                    r == (b.close@ < last@)
            { b.close < last },
            Ghost(close_below(bars@, last@)),
        );
        let others: usize = if bars.len() > 1 {
            bars.len() - 1
        } else {
            1
        };
        Some(Fraction { num: n as i128, den: others as u128 })
    }

    /// Rank of last bar's range (high-low) among all bar ranges (0.0=min, 1.0=max).
    ///
    /// The rank is the number of ranges below the last one, out of the number of
    /// the others. Returns `None` for an empty slice.
    pub fn bar_height_rank(bars: &[OhlcvBar]) -> (r: Option<Fraction>)
        requires
            all_some(bars@.len() as int, ranges(bars@)),
        ensures
            fraction_of(
                r,
                bars@.len() > 0,
                tally(bars@.len() as int, range_below(bars@, bars@[bars@.len() - 1].range_val()->0.units)),
                if bars@.len() > 1 {
                    bars@.len() - 1
                } else {
                    1
                },
            ),
    {
        if bars.len() == 0 {
            return None;
        }
        assert forall|i: int| 0 <= i < bars@.len() implies (#[trigger] bars@[i]).range_val() is Some by {
            assert(ranges(bars@)(i) is Some);
        }
        let last = bars[bars.len() - 1].range();
        let n: usize = series::count(
            bars,
            |b: &OhlcvBar| -> (r: bool)
                requires
                    b.range_val() is Some,
                ensures
                    r == (b.range_val()->0.units < last@)
            { b.range() < last },
            Ghost(range_below(bars@, last@)),
        );
        let others: usize = if bars.len() > 1 {
            bars.len() - 1
        } else {
            1
        };
        Some(Fraction { num: n as i128, den: others as u128 })
    }

    /// Mean `trade_count` (ticks per bar) across the slice.
    ///
    /// Returns `None` if the slice is empty.
    pub fn avg_trade_count(bars: &[OhlcvBar]) -> (r: Option<Fraction>)
        requires
            ticks(bars@, bars@.len() as int) <= u64::MAX,
        ensures
            fraction_of(r, bars@.len() > 0, ticks(bars@, bars@.len() as int), bars@.len() as int),
    {
        if bars.len() == 0 {
            return None;
        }
        Some(Fraction { num: Self::total_ticks(bars) as i128, den: bars.len() as u128 })
    }

    /// Mean number of ticks per millisecond of bar duration.
    ///
    /// `tick_count / bar_duration_ms`. Returns `None` if the slice is empty
    /// or the total duration across bars is zero.
    pub fn bar_speed(bars: &[OhlcvBar]) -> (r: Option<Fraction>)
        requires
            ticks(bars@, bars@.len() as int) <= u64::MAX,
            millis(bars@, bars@.len() as int) <= u64::MAX,
        ensures
            fraction_of(
                r,
                bars@.len() > 0 && millis(bars@, bars@.len() as int) != 0,
                ticks(bars@, bars@.len() as int),
                millis(bars@, bars@.len() as int),
            ),
    {
        if bars.len() == 0 {
            return None;
        }
        let total_ms: u64 = Self::total_ms(bars);
        proof {
            lemma_millis(bars@, bars@.len() as int, 0);
        }
        if total_ms == 0 {
            return None;
        }
        Some(Fraction { num: Self::total_ticks(bars) as i128, den: total_ms as u128 })
    }

    /// The number of ticks of all bars.
    fn total_ticks(bars: &[OhlcvBar]) -> (r: u64)
        requires
            ticks(bars@, bars@.len() as int) <= u64::MAX,
        ensures
            r == ticks(bars@, bars@.len() as int),
    {
        let mut sum: u64 = 0;
        let mut i: usize = 0;
        while i < bars.len()
            invariant
                i <= bars@.len(),
                sum == ticks(bars@, i as int),
                ticks(bars@, bars@.len() as int) <= u64::MAX,
            decreases bars@.len() - i,
        {
            proof {
                lemma_ticks(bars@, bars@.len() as int, i + 1);
            }
            sum = sum + bars[i].trade_count;
            i += 1;
        }
        sum
    }

    /// The duration of all bars in milliseconds.
    fn total_ms(bars: &[OhlcvBar]) -> (r: u64)
        requires
            millis(bars@, bars@.len() as int) <= u64::MAX,
        ensures
            r == millis(bars@, bars@.len() as int),
    {
        let mut sum: u64 = 0;
        let mut i: usize = 0;
        while i < bars.len()
            invariant
                i <= bars@.len(),
                sum == millis(bars@, i as int),
                millis(bars@, bars@.len() as int) <= u64::MAX,
            decreases bars@.len() - i,
        {
            proof {
                lemma_millis(bars@, bars@.len() as int, i + 1);
                lemma_millis(bars@, i as int, 0);
            }
            sum = sum + bars[i].bar_duration_ms();
            i += 1;
        }
        sum
    }
}

proof fn lemma_ticks(bars: Seq<OhlcvBar>, n: int, i: int)
    requires
        0 <= i <= n,
    ensures
        0 <= ticks(bars, i) <= ticks(bars, n),
    decreases n,
{
    if i < n {
        lemma_ticks(bars, n - 1, i);
    } else if n > 0 {
        lemma_ticks(bars, n - 1, n - 1);
    }
}

proof fn lemma_millis(bars: Seq<OhlcvBar>, n: int, i: int)
    requires
        0 <= i <= n,
    ensures
        0 <= millis(bars, i) <= millis(bars, n),
    decreases n,
{
    if i < n {
        lemma_millis(bars, n - 1, i);
    } else if n > 0 {
        lemma_millis(bars, n - 1, n - 1);
    }
}

} // verus!
