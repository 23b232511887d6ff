//! Standard deviations, scores, correlations and skewness over bars.

use crate::bar::OhlcvBar;
use crate::bars::{
    bar_returns, bodies, body_shares, close_positions_or_half, closes, high_to_closes,
    nonzero_opens, opens, ranges, typical_prices, upright_bars, volumes,
};
use crate::decimal::{over, unit, Decimal, Num};
use crate::moments::{
    autocorrelation_of, correlation_of, deviation_den, deviation_of, index_values, indices, lagged,
    offsets, offsets_add_up_to_zero, score_of, skewness_of, spread, spread_of, sum_of, units_of,
    variation_of, yields_correlation, yields_deviation, yields_score, yields_skewness,
    yields_variation,
};
use crate::natural::{integers, Integer, Natural};
use crate::scientific::{one_less, rest_den, rest_num, yields_ratio, zero, Scientific};
use crate::series::{all_some, kept, numbers, values};
use vstd::prelude::*;

verus! {

/// The values of a series as numbers of units.
pub open spec fn listed(n: int, f: spec_fn(int) -> Option<Num>) -> Seq<int> {
    Seq::new(n as nat, |i: int| f(i)->0.units)
}

/// The values of a list as numbers of units.
pub open spec fn unwrapped(s: Seq<Option<Num>>) -> Seq<int> {
    s.map_values(|v: Option<Num>| v->0.units)
}

/// Whether the standard deviation of a population is `1e-12` at least.
pub open spec fn deviates_by_a_trillionth(xs: Seq<int>) -> bool {
    spread(xs) * 1_000_000_000_000_000_000_000_000 >= deviation_den(xs, xs.len() as int)
}

pub(crate) proof fn lemma_listed(list: Seq<Decimal>, n: int, f: spec_fn(int) -> Option<Num>)
    requires
        n >= 0,
        values(list) == Seq::new(n as nat, f),
    ensures
        list.len() == n,
        numbers(list) == listed(n, f),
{
    assert(values(list).len() == list.len());
    assert forall|i: int| 0 <= i < list.len() implies numbers(list)[i] == listed(n, f)[i] by {
        assert(values(list)[i] == list[i].val());
    }
    assert(numbers(list) =~= listed(n, f));
}

proof fn lemma_unwrapped(list: Seq<Decimal>, s: Seq<Option<Num>>)
    requires
        values(list) == s,
    ensures
        list.len() == s.len(),
        numbers(list) == unwrapped(s),
{
    assert(values(list).len() == list.len());
    assert forall|i: int| 0 <= i < list.len() implies numbers(list)[i] == unwrapped(s)[i] by {
        assert(values(list)[i] == list[i].val());
    }
    assert(numbers(list) =~= unwrapped(s));
}

/// Whether the standard deviation of a population is `1e-12` at least.
fn reaches_a_trillionth(xs: &Vec<Integer>) -> (r: bool)
    requires
        xs@.len() > 0,
    ensures
        r == deviates_by_a_trillionth(integers(xs@)),
        r ==> spread(integers(xs@)) != 0,
{
    proof {
        let k = xs@.len() as int;
        assert(((k * k) * k) * (unit() * unit()) > 0) by (nonlinear_arith)
            requires
                k > 0,
                unit() > 0,
        ;
    }
    let n = Natural::new(xs.len() as u128);
    let one = Natural::new(10_000_000_000_000_000_000_000_000_000);
    let den = n.times(&n).times(&n).times(&one.times(&one));
    den.is_at_most(&spread_of(xs).times(&Natural::new(1_000_000_000_000_000_000_000_000)))
}

impl OhlcvBar {
    /// Population standard deviation of close prices across a slice of bars.
    ///
    /// Returns `None` if the slice has fewer than 2 bars.
    pub fn close_std_dev(bars: &[OhlcvBar]) -> (r: Option<Scientific>)
        ensures
            yields_deviation(
                r,
                bars@.len() >= 2,
                listed(bars@.len() as int, closes(bars@)),
                bars@.len() as int,
            ),
    {
        if bars.len() < 2 {
            return None;
        }
        let list = Self::all_closes(bars);
        proof {
            lemma_listed(list@, bars@.len() as int, closes(bars@));
        }
        let xs = units_of(list.as_slice());
        Some(deviation_of(&xs, bars.len() as u64))
    }

    /// Sample standard deviation of bar volumes across the slice.
    ///
    /// Returns `None` if the slice has fewer than 2 bars.
    pub fn volume_std_dev(bars: &[OhlcvBar]) -> (r: Option<Scientific>)
        ensures
            yields_deviation(
                r,
                bars@.len() >= 2,
                listed(bars@.len() as int, volumes(bars@)),
                bars@.len() - 1,
            ),
    {
        if bars.len() < 2 {
            return None;
        }
        let list = Self::all_volumes(bars);
        proof {
            lemma_listed(list@, bars@.len() as int, volumes(bars@));
        }
        let xs = units_of(list.as_slice());
        Some(deviation_of(&xs, (bars.len() - 1) as u64))
    }

    /// Std dev of volume across bars; requires ≥ 2 bars.
    pub fn volume_std(bars: &[OhlcvBar]) -> (r: Option<Scientific>)
        ensures
            yields_deviation(
                r,
                bars@.len() >= 2,
                listed(bars@.len() as int, volumes(bars@)),
                bars@.len() - 1,
            ),
    {
        Self::volume_std_dev(bars)
    }

    /// Standard deviation of close prices; requires ≥ 2 bars.
    pub fn close_std(bars: &[OhlcvBar]) -> (r: Option<Scientific>)
        ensures
            yields_deviation(
                r,
                bars@.len() >= 2,
                listed(bars@.len() as int, closes(bars@)),
                bars@.len() - 1,
            ),
    {
        if bars.len() < 2 {
            return None;
        }
        let list = Self::all_closes(bars);
        proof {
            lemma_listed(list@, bars@.len() as int, closes(bars@));
        }
        let xs = units_of(list.as_slice());
        Some(deviation_of(&xs, (bars.len() - 1) as u64))
    }

    /// Sample standard deviation of open prices across bars.  Requires ≥ 2 bars.
    pub fn open_std(bars: &[OhlcvBar]) -> (r: Option<Scientific>)
        ensures
            yields_deviation(
                r,
                bars@.len() >= 2,
                listed(bars@.len() as int, opens(bars@)),
                bars@.len() - 1,
            ),
    {
        if bars.len() < 2 {
            return None;
        }
        let list = Self::all_opens(bars);
        proof {
            lemma_listed(list@, bars@.len() as int, opens(bars@));
        }
        let xs = units_of(list.as_slice());
        Some(deviation_of(&xs, (bars.len() - 1) as u64))
    }

    /// Standard deviation of bar ranges (high − low).
    ///
    /// Measures consistency of bar volatility. Returns `None` if fewer than 2
    /// bars are provided.
    pub fn range_std_dev(bars: &[OhlcvBar]) -> (r: Option<Scientific>)
        requires
            bars@.len() >= 2 ==> all_some(bars@.len() as int, ranges(bars@)),
        ensures
            yields_deviation(
                r,
                bars@.len() >= 2,
                listed(bars@.len() as int, ranges(bars@)),
                bars@.len() - 1,
            ),
    {
        if bars.len() < 2 {
            return None;
        }
        let list = Self::range_values(bars);
        proof {
            lemma_listed(list@, bars@.len() as int, ranges(bars@));
        }
        let xs = units_of(list.as_slice());
        Some(deviation_of(&xs, (bars.len() - 1) as u64))
    }

    /// Standard deviation of `(close − high)` across bars.
    ///
    /// Measures how consistently close prices approach the bar high.
    /// Returns `None` if fewer than 2 bars are provided.
    pub fn close_to_high_std(bars: &[OhlcvBar]) -> (r: Option<Scientific>)
        requires
            bars@.len() >= 2 ==> all_some(bars@.len() as int, high_to_closes(bars@)),
        ensures
            yields_deviation(
                r,
                bars@.len() >= 2,
                listed(bars@.len() as int, high_to_closes(bars@)),
                bars@.len() - 1,
            ),
    {
        if bars.len() < 2 {
            return None;
        }
        let list = Self::high_to_close_values(bars);
        proof {
            lemma_listed(list@, bars@.len() as int, high_to_closes(bars@));
        }
        let xs = units_of(list.as_slice());
        Some(deviation_of(&xs, (bars.len() - 1) as u64))
    }

    /// Standard deviation of typical prices `(high + low + close) / 3` across bars.
    ///
    /// Returns `None` if fewer than 2 bars are provided.
    pub fn typical_price_std(bars: &[OhlcvBar]) -> (r: Option<Scientific>)
        requires
            bars@.len() >= 2 ==> all_some(bars@.len() as int, typical_prices(bars@)),
        ensures
            yields_deviation(
                r,
                bars@.len() >= 2,
                listed(bars@.len() as int, typical_prices(bars@)),
                bars@.len() - 1,
            ),
    {
        if bars.len() < 2 {
            return None;
        }
        let list = Self::typical_price_values(bars);
        proof {
            lemma_listed(list@, bars@.len() as int, typical_prices(bars@));
        }
        let xs = units_of(list.as_slice());
        Some(deviation_of(&xs, (bars.len() - 1) as u64))
    }

    /// Body volatility: standard deviation of body sizes (|close - open|).
    ///
    /// Returns `None` for an empty slice.
    pub fn body_volatility(bars: &[OhlcvBar]) -> (r: Option<Scientific>)
        requires
            bars@.len() > 0 ==> all_some(bars@.len() as int, bodies(bars@)),
        ensures
            yields_deviation(
                r,
                bars@.len() > 0,
                listed(bars@.len() as int, bodies(bars@)),
                bars@.len() as int,
            ),
    {
        if bars.len() == 0 {
            return None;
        }
        let list = Self::body_values(bars);
        proof {
            lemma_listed(list@, bars@.len() as int, bodies(bars@));
        }
        let xs = units_of(list.as_slice());
        Some(deviation_of(&xs, bars.len() as u64))
    }

    /// Close oscillation amplitude: std of close prices across bars.
    pub fn close_oscillation_amplitude(bars: &[OhlcvBar]) -> (r: Option<Scientific>)
        ensures
            yields_deviation(
                r,
                bars@.len() >= 2,
                listed(bars@.len() as int, closes(bars@)),
                bars@.len() as int,
            ),
    {
        Self::close_std_dev(bars)
    }

    /// Standard deviation of per-bar `(close − open) / open` returns.
    ///
    /// Measures intrabar volatility consistency. Returns `None` when fewer
    /// than 2 bars are provided or every open is zero.
    pub fn open_to_close_volatility(bars: &[OhlcvBar]) -> (r: Option<Scientific>)
        requires
            forall|i: int|
                0 <= i < bars@.len() && (#[trigger] bars@[i]).open@ != 0 ==> over(
                    bars@[i].price_change_val(),
                    bars@[i].open.val(),
                ) is Some,
        ensures
            ({
                let sample = kept(bars@.len() as int, nonzero_opens(bars@), bar_returns(bars@));
                yields_deviation(r, bars@.len() >= 2 && sample.len() >= 2, unwrapped(sample), sample.len() - 1)
            }),
    {
        if bars.len() < 2 {
            return None;
        }
        let list = Self::bar_returns(bars);
        let ghost sample = kept(bars@.len() as int, nonzero_opens(bars@), bar_returns(bars@));
        proof {
            lemma_unwrapped(list@, sample);
        }
        if list.len() < 2 {
            return None;
        }
        let xs = units_of(list.as_slice());
        Some(deviation_of(&xs, (list.len() - 1) as u64))
    }

    /// Standard deviation of body-to-range ratios across bars.
    /// Body = |close − open|, range = high − low.  Bars with zero range are excluded.
    /// Returns `None` if fewer than 2 non-zero-range bars.
    pub fn body_to_range_std(bars: &[OhlcvBar]) -> (r: Option<Scientific>)
        requires
            forall|i: int|
                0 <= i < bars@.len() && (#[trigger] bars@[i]).high@ > bars@[i].low@ ==> over(
                    bars@[i].body_val(),
                    bars@[i].range_val(),
                ) is Some,
        ensures
            ({
                let sample = kept(bars@.len() as int, upright_bars(bars@), body_shares(bars@));
                yields_deviation(r, sample.len() >= 2, unwrapped(sample), sample.len() - 1)
            }),
    {
        let list = Self::upright_body_shares(bars);
        let ghost sample = kept(bars@.len() as int, upright_bars(bars@), body_shares(bars@));
        proof {
            lemma_unwrapped(list@, sample);
        }
        if list.len() < 2 {
            return None;
        }
        let xs = units_of(list.as_slice());
        Some(deviation_of(&xs, (list.len() - 1) as u64))
    }

    /// Stability of close relative to bar range: 1 - std(close_pct) over bars.
    pub fn close_range_stability(bars: &[OhlcvBar]) -> (r: Option<Scientific>)
        requires
            bars@.len() > 0 ==> all_some(bars@.len() as int, close_positions_or_half(bars@)),
        ensures
            r is Some == (bars@.len() > 0),
            r is Some ==> exists|s: Scientific|
                {
                    &&& #[trigger] yields_deviation(
                        Some(s),
                        true,
                        listed(bars@.len() as int, close_positions_or_half(bars@)),
                        bars@.len() as int,
                    )
                    &&& yields_ratio(r, true, rest_num(s), rest_den(s))
                },
    {
        if bars.len() == 0 {
            return None;
        }
        let list = Self::close_position_values(bars);
        proof {
            lemma_listed(list@, bars@.len() as int, close_positions_or_half(bars@));
        }
        let xs = units_of(list.as_slice());
        let s = deviation_of(&xs, bars.len() as u64);
        assert(yields_deviation(
            Some(s),
            true,
            listed(bars@.len() as int, close_positions_or_half(bars@)),
            bars@.len() as int,
        ));
        Some(one_less(s))
    }

    /// Coefficient of variation of bar volumes: `std_dev(volume) / mean(volume)`.
    /// Returns `None` for fewer than 2 bars or zero mean volume.
    pub fn volume_dispersion(bars: &[OhlcvBar]) -> (r: Option<Scientific>)
        ensures
            yields_variation(
                r,
                bars@.len() >= 2 && sum_of(listed(bars@.len() as int, volumes(bars@))) != 0,
                sum_of(listed(bars@.len() as int, volumes(bars@))) < 0,
                1,
                listed(bars@.len() as int, volumes(bars@)),
            ),
    {
        if bars.len() < 2 {
            return None;
        }
        let list = Self::all_volumes(bars);
        proof {
            lemma_listed(list@, bars@.len() as int, volumes(bars@));
        }
        let xs = units_of(list.as_slice());
        variation_of(&xs, 1, true)
    }

    /// Normalised Bollinger Band width: `2 × close_std_dev / mean_close`.
    ///
    /// Returns `None` if `mean_close` is zero or the slice is too small.
    pub fn bollinger_band_width(bars: &[OhlcvBar]) -> (r: Option<Scientific>)
        ensures
            yields_variation(
                r,
                bars@.len() >= 2 && sum_of(listed(bars@.len() as int, closes(bars@))) != 0,
                sum_of(listed(bars@.len() as int, closes(bars@))) < 0,
                2,
                listed(bars@.len() as int, closes(bars@)),
            ),
    {
        if bars.len() < 2 {
            return None;
        }
        let list = Self::all_closes(bars);
        proof {
            lemma_listed(list@, bars@.len() as int, closes(bars@));
        }
        let xs = units_of(list.as_slice());
        variation_of(&xs, 2, true)
    }

    /// Coefficient of variation of close prices: `std_dev(close) / mean(close)`.
    ///
    /// A dimensionless measure of close price dispersion. Returns `None` if
    /// fewer than 2 bars or if mean close is zero.
    pub fn close_volatility_ratio(bars: &[OhlcvBar]) -> (r: Option<Scientific>)
        ensures
            yields_variation(
                r,
                bars@.len() >= 2 && sum_of(listed(bars@.len() as int, closes(bars@))) != 0,
                false,
                1,
                listed(bars@.len() as int, closes(bars@)),
            ),
    {
        if bars.len() < 2 {
            return None;
        }
        let list = Self::all_closes(bars);
        proof {
            lemma_listed(list@, bars@.len() as int, closes(bars@));
        }
        let xs = units_of(list.as_slice());
        variation_of(&xs, 1, false)
    }

    /// Z-score of `value` relative to the close price series.
    ///
    /// Returns `None` if the slice has fewer than 2 bars or the standard
    /// deviation is zero.
    pub fn close_z_score(bars: &[OhlcvBar], value: Decimal) -> (r: Option<Scientific>)
        ensures
            yields_score(
                r,
                bars@.len() >= 2 && spread(listed(bars@.len() as int, closes(bars@))) != 0,
                value@,
                listed(bars@.len() as int, closes(bars@)),
                bars@.len() as int,
            ),
    {
        if bars.len() < 2 {
            return None;
        }
        let list = Self::all_closes(bars);
        proof {
            lemma_listed(list@, bars@.len() as int, closes(bars@));
        }
        let xs = units_of(list.as_slice());
        score_of(&Integer::units(value), &xs, bars.len() as u64)
    }

    /// Z-score of the last bar's volume relative to the slice.
    /// Returns `None` for fewer than 2 bars or zero volume std dev.
    pub fn volume_zscore(bars: &[OhlcvBar]) -> (r: Option<Scientific>)
        ensures
            yields_score(
                r,
                bars@.len() >= 2 && spread(listed(bars@.len() as int, volumes(bars@))) != 0,
                bars@[bars@.len() - 1].volume@,
                listed(bars@.len() as int, volumes(bars@)),
                bars@.len() - 1,
            ),
    {
        if bars.len() < 2 {
            return None;
        }
        let list = Self::all_volumes(bars);
        proof {
            lemma_listed(list@, bars@.len() as int, volumes(bars@));
        }
        let xs = units_of(list.as_slice());
        score_of(&Integer::units(bars[bars.len() - 1].volume), &xs, (bars.len() - 1) as u64)
    }

    /// Z-score of last body size relative to all body sizes.
    pub fn body_range_zscore(bars: &[OhlcvBar]) -> (r: Option<Scientific>)
        requires
            bars@.len() >= 2 ==> all_some(bars@.len() as int, bodies(bars@)),
        ensures
            yields_score(
                r,
                bars@.len() >= 2 && spread(listed(bars@.len() as int, bodies(bars@))) != 0,
                bars@[bars@.len() - 1].body_val()->0.units,
                listed(bars@.len() as int, bodies(bars@)),
                bars@.len() as int,
            ),
    {
        if bars.len() < 2 {
            return None;
        }
        let list = Self::body_values(bars);
        proof {
            lemma_listed(list@, bars@.len() as int, bodies(bars@));
        }
        let xs = units_of(list.as_slice());
        score_of(&Integer::units(list[bars.len() - 1]), &xs, bars.len() as u64)
    }

    /// Mean of the distances of the ranges of bars from their mean, in standard deviations.
    ///
    /// The distances from a mean add up to zero, so that this is zero, whether or not the
    /// ranges vary. Returns `None` for fewer than 2 bars.
    pub fn bar_range_zscore(bars: &[OhlcvBar]) -> (r: Option<Scientific>)
        requires
            bars@.len() >= 2 ==> all_some(bars@.len() as int, ranges(bars@)),
        ensures
            yields_ratio(
                r,
                bars@.len() >= 2,
                sum_of(offsets(listed(bars@.len() as int, ranges(bars@)))),
                1,
            ),
            r is Some ==> r->0 == zero(),
    {
        if bars.len() < 2 {
            return None;
        }
        proof {
            offsets_add_up_to_zero(listed(bars@.len() as int, ranges(bars@)));
        }
        Some(Scientific { negative: false, mantissa: 0, exponent: 0 })
    }

    /// Pearson correlation between per-bar volume and close price.
    ///
    /// Returns `None` if fewer than 2 bars or if either series has zero
    /// variance.
    pub fn volume_price_correlation(bars: &[OhlcvBar]) -> (r: Option<Scientific>)
        ensures
            yields_correlation(
                r,
                bars@.len() >= 2 && spread(listed(bars@.len() as int, volumes(bars@))) != 0
                    && spread(listed(bars@.len() as int, closes(bars@))) != 0,
                listed(bars@.len() as int, volumes(bars@)),
                listed(bars@.len() as int, closes(bars@)),
            ),
    {
        if bars.len() < 2 {
            return None;
        }
        let list = Self::all_volumes(bars);
        proof {
            lemma_listed(list@, bars@.len() as int, volumes(bars@));
        }
        let xs = units_of(list.as_slice());
        let others = Self::all_closes(bars);
        proof {
            lemma_listed(others@, bars@.len() as int, closes(bars@));
        }
        let ys = units_of(others.as_slice());
        correlation_of(&xs, &ys)
    }

    /// Pearson correlation between open and close prices across bars.
    /// Returns `None` for fewer than 2 bars or zero variance.
    pub fn open_close_correlation(bars: &[OhlcvBar]) -> (r: Option<Scientific>)
        ensures
            yields_correlation(
                r,
                bars@.len() >= 2 && spread(listed(bars@.len() as int, opens(bars@))) != 0
                    && spread(listed(bars@.len() as int, closes(bars@))) != 0,
                listed(bars@.len() as int, opens(bars@)),
                listed(bars@.len() as int, closes(bars@)),
            ),
    {
        if bars.len() < 2 {
            return None;
        }
        let list = Self::all_opens(bars);
        proof {
            lemma_listed(list@, bars@.len() as int, opens(bars@));
        }
        let xs = units_of(list.as_slice());
        let others = Self::all_closes(bars);
        proof {
            lemma_listed(others@, bars@.len() as int, closes(bars@));
        }
        let ys = units_of(others.as_slice());
        correlation_of(&xs, &ys)
    }

    /// Pearson correlation between bar index and volume — a measure of whether
    /// volume is trending up or down over the window.
    ///
    /// Returns `None` if fewer than 2 bars or if either series has zero variance.
    pub fn volume_trend_strength(bars: &[OhlcvBar]) -> (r: Option<Scientific>)
        ensures
            yields_correlation(
                r,
                bars@.len() >= 2 && spread(indices(bars@.len() as int)) != 0
                    && spread(listed(bars@.len() as int, volumes(bars@))) != 0,
                indices(bars@.len() as int),
                listed(bars@.len() as int, volumes(bars@)),
            ),
    {
        if bars.len() < 2 {
            return None;
        }
        let xs = index_values(bars.len());
        let others = Self::all_volumes(bars);
        proof {
            lemma_listed(others@, bars@.len() as int, volumes(bars@));
        }
        let ys = units_of(others.as_slice());
        correlation_of(&xs, &ys)
    }

    /// Skewness of close prices across bars.
    ///
    /// Returns `None` for fewer than 3 bars or a standard deviation below `1e-12`.
    pub fn close_skewness(bars: &[OhlcvBar]) -> (r: Option<Scientific>)
        ensures
            yields_skewness(
                r,
                bars@.len() >= 3 && deviates_by_a_trillionth(listed(bars@.len() as int, closes(bars@))),
                listed(bars@.len() as int, closes(bars@)),
            ),
    {
        if bars.len() < 3 {
            return None;
        }
        let list = Self::all_closes(bars);
        proof {
            lemma_listed(list@, bars@.len() as int, closes(bars@));
        }
        let xs = units_of(list.as_slice());
        if !reaches_a_trillionth(&xs) {
            return None;
        }
        Some(skewness_of(&xs))
    }

    /// Skewness of volume distribution across bars.
    ///
    /// Returns `None` for fewer than 3 bars or zero std dev.
    pub fn volume_skewness(bars: &[OhlcvBar]) -> (r: Option<Scientific>)
        ensures
            yields_skewness(
                r,
                bars@.len() >= 3 && spread(listed(bars@.len() as int, volumes(bars@))) != 0,
                listed(bars@.len() as int, volumes(bars@)),
            ),
    {
        if bars.len() < 3 {
            return None;
        }
        let list = Self::all_volumes(bars);
        proof {
            lemma_listed(list@, bars@.len() as int, volumes(bars@));
        }
        let xs = units_of(list.as_slice());
        if spread_of(&xs).is_zero() {
            return None;
        }
        Some(skewness_of(&xs))
    }

    /// Skewness of bar body sizes `|close - open|` across the slice.
    /// Returns `None` for fewer than 3 bars or zero std dev.
    pub fn body_skew(bars: &[OhlcvBar]) -> (r: Option<Scientific>)
        requires
            bars@.len() >= 3 ==> all_some(bars@.len() as int, bodies(bars@)),
        ensures
            yields_skewness(
                r,
                bars@.len() >= 3 && spread(listed(bars@.len() as int, bodies(bars@))) != 0,
                listed(bars@.len() as int, bodies(bars@)),
            ),
    {
        if bars.len() < 3 {
            return None;
        }
        let list = Self::body_values(bars);
        proof {
            lemma_listed(list@, bars@.len() as int, bodies(bars@));
        }
        let xs = units_of(list.as_slice());
        if spread_of(&xs).is_zero() {
            return None;
        }
        Some(skewness_of(&xs))
    }

    /// Lag-1 autocorrelation of close prices.
    ///
    /// Returns `None` for fewer than 3 bars or closes that do not vary.
    pub fn close_lag1_autocorr(bars: &[OhlcvBar]) -> (r: Option<Scientific>)
        ensures
            ({
                let xs = listed(bars@.len() as int, closes(bars@));
                yields_ratio(
                    r,
                    bars@.len() >= 3 && spread(xs) != 0,
                    lagged(xs) * bars@.len(),
                    spread(xs) * (bars@.len() - 1),
                )
            }),
    {
        if bars.len() < 3 {
            return None;
        }
        let list = Self::all_closes(bars);
        proof {
            lemma_listed(list@, bars@.len() as int, closes(bars@));
        }
        let xs = units_of(list.as_slice());
        autocorrelation_of(&xs)
    }
}

} // verus!
