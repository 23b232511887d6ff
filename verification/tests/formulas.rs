//! One exact value for each formula over a run of bars.

use fin_stream::bar::OhlcvBar;
use fin_stream::decimal::Decimal;
use fin_stream::natural::Natural;
use fin_stream::scientific::{root_of, Scientific};
use fin_stream::timeframe::Timeframe;
use rust_decimal::prelude::ToPrimitive;

fn bar(open: i64, high: i64, low: i64, close: i64, volume: i64) -> OhlcvBar {
    OhlcvBar {
        symbol: "X".to_string(),
        timeframe: Timeframe::Minutes(1),
        bar_start_ms: 0,
        open: Decimal::whole(open),
        high: Decimal::whole(high),
        low: Decimal::whole(low),
        close: Decimal::whole(close),
        volume: Decimal::whole(volume),
        trade_count: 1,
        is_complete: true,
        is_gap_fill: false,
        vwap: None,
    }
}

fn sample() -> Vec<OhlcvBar> {
    vec![
        bar(100, 110, 90, 105, 1000),
        bar(105, 115, 100, 110, 2000),
        bar(110, 112, 98, 100, 1500),
        bar(100, 104, 96, 104, 500),
    ]
}

trait Float {
    fn float(self) -> f64;
}

impl Float for Decimal {
    fn float(self) -> f64 {
        let (mantissa, scale) = self.parts();
        rust_decimal::Decimal::from_i128_with_scale(mantissa, scale).to_f64().unwrap()
    }
}

impl Float for Scientific {
    fn float(self) -> f64 {
        let sign = if self.negative { "-" } else { "" };
        format!("{sign}{}e{}", self.mantissa, self.exponent).parse().unwrap()
    }
}

fn near<T: Float>(value: Option<T>, want: f64) {
    let value = value.unwrap().float();
    assert!((value - want).abs() < 1e-11, "{value} is not {want}");
}

#[test]
fn formulas_over_four_bars() {
    let bars = sample();
    near(OhlcvBar::close_std_dev(&bars), 3.5619517121937516);
    near(OhlcvBar::close_std(&bars), 4.112987559751022);
    near(OhlcvBar::open_std(&bars), 4.7871355387816905);
    near(OhlcvBar::volume_std_dev(&bars), 645.4972243679028);
    near(OhlcvBar::volume_std(&bars), 645.4972243679028);
    near(OhlcvBar::range_std_dev(&bars), 4.924428900898052);
    near(OhlcvBar::close_to_high_std(&bars), 4.932882862316247);
    near(OhlcvBar::typical_price_std(&bars), 3.2317865716108862);
    near(OhlcvBar::body_volatility(&bars), 2.345207879911715);
    near(OhlcvBar::close_oscillation_amplitude(&bars), 3.5619517121937516);
    near(OhlcvBar::open_to_close_volatility(&bars), 0.06852391673009985);
    near(OhlcvBar::body_to_range_std(&bars), 0.20490374378641077);
    near(OhlcvBar::close_range_stability(&bars), 0.6879254596935486);
    near(OhlcvBar::volume_dispersion(&bars), 0.4472135954999579);
    near(OhlcvBar::bollinger_band_width(&bars), 0.06800862457649168);
    near(OhlcvBar::close_volatility_ratio(&bars), 0.03400431228824584);
    near(OhlcvBar::volume_zscore(&bars), -1.161895003862225);
    near(OhlcvBar::body_range_zscore(&bars), -0.8528028654224418);
    near(OhlcvBar::bar_range_zscore(&bars), 0.0);
    near(OhlcvBar::volume_price_correlation(&bars), 0.40804713337332393);
    near(OhlcvBar::open_close_correlation(&bars), -0.35975311233691215);
    near(OhlcvBar::volume_trend_strength(&bars), -0.4);
    near(OhlcvBar::close_skewness(&bars), 0.20537254648674694);
    near(OhlcvBar::volume_skewness(&bars), 0.0);
    near(OhlcvBar::body_skew(&bars), 1.0466216984729966);
    near(OhlcvBar::close_lag1_autocorr(&bars), -0.5270935960591133);
    near(OhlcvBar::linear_regression_slope(&bars), -1.3);
    near(OhlcvBar::volume_slope(&bars), -200.0);
    near(OhlcvBar::volume_trend_slope(&bars), -200.0);
    near(OhlcvBar::body_ema(&bars), 5.6);
    near(OhlcvBar::price_path_length(&bars), 19.0);
    near(OhlcvBar::volume_weighted_range(&bars), 15.0);
    near(OhlcvBar::volume_weighted_close_change(&bars), -0.75);
    near(OhlcvBar::avg_close_deviation(&bars), 2.75);
    near(OhlcvBar::bar_range_mean_dev(&bars), 3.25);
    near(OhlcvBar::net_directional_move(&bars), 0.04);
    near(OhlcvBar::close_trend_strength(&bars), -0.1);
    near(OhlcvBar::volume_trend_ratio(&bars), 0.4);
    near(OhlcvBar::volume_ratio_to_max(&bars), 0.625);
    near(OhlcvBar::bar_consolidation_score(&bars), 0.5505952380952381);
    near(OhlcvBar::volume_concentration_ratio(&bars), 0.4);
    near(OhlcvBar::volume_deceleration(&bars), -750.0);
    near(OhlcvBar::shadow_body_ratio(&bars), 1.375);
    near(OhlcvBar::mean_clv(&bars), 0.27976190476190477);
    near(OhlcvBar::avg_true_range_pct(&bars), 0.13594072594072595);
}

#[test]
fn formulas_with_parameters() {
    let bars = sample();
    near(OhlcvBar::close_z_score(&bars, Decimal::whole(120)), 4.281360678695938);
    near(OhlcvBar::volume_oscillator(&bars, 2, 3), -0.25);
    near(OhlcvBar::ema(&bars, Decimal::hundredths(50)), 103.875);
    // The factor is held within its bounds.
    near(OhlcvBar::ema(&bars, Decimal::whole(7)), 104.0);
    assert_eq!(OhlcvBar::ema(&bars, Decimal::whole(-1)), OhlcvBar::ema(&bars, Decimal::billionth()));
    assert!(OhlcvBar::volume_oscillator(&bars, 2, 5).is_none());
    assert!(OhlcvBar::volume_oscillator(&bars, 2, 2).is_none());
    assert!(OhlcvBar::volume_oscillator(&bars, 0, 2).is_none());
}

#[test]
fn deviations_of_equal_values_are_zero() {
    let bars = vec![bar(100, 110, 90, 105, 7), bar(100, 110, 90, 105, 7), bar(100, 110, 90, 105, 7)];
    near(OhlcvBar::close_std_dev(&bars), 0.0);
    near(OhlcvBar::range_std_dev(&bars), 0.0);
    near(OhlcvBar::bar_range_zscore(&bars), 0.0);
    assert!(OhlcvBar::close_z_score(&bars, Decimal::whole(1)).is_none());
    assert!(OhlcvBar::volume_zscore(&bars).is_none());
    assert!(OhlcvBar::body_range_zscore(&bars).is_none());
    assert!(OhlcvBar::volume_price_correlation(&bars).is_none());
    assert!(OhlcvBar::close_skewness(&bars).is_none());
    assert!(OhlcvBar::body_skew(&bars).is_none());
    assert!(OhlcvBar::close_lag1_autocorr(&bars).is_none());
}

fn scientific(negative: bool, mantissa: u128, exponent: i128) -> Scientific {
    Scientific { negative, mantissa, exponent }
}

#[test]
fn roots_have_twenty_eight_digits() {
    let root = |num: u128, den: u128| root_of(false, &Natural::new(num), &Natural::new(den));
    let one = 1_000_000_000_000_000_000_000_000_000;
    assert_eq!(root(0, 5), scientific(false, 0, 0));
    assert_eq!(root(1, 1), scientific(false, one, -27));
    assert_eq!(root(144, 1), scientific(false, 12 * one / 10, -26));
    assert_eq!(root(1, 4), scientific(false, 5 * one, -28));
    assert_eq!(root(2, 1), scientific(false, 1_414_213_562_373_095_048_801_688_724, -27));
    assert_eq!(root(200, 1), scientific(false, 1_414_213_562_373_095_048_801_688_724, -26));
    assert_eq!(root(u128::MAX, 1), scientific(false, 1_844_674_407_370_955_161_599_999_999, -8));
    let n = Natural::new(u128::MAX).times(&Natural::new(u128::MAX));
    let square = n.times(&n);
    assert_eq!(
        root_of(true, &square.times(&square), &Natural::new(1)),
        scientific(true, 1_340_780_792_994_259_709_957_402_499, 127),
    );
    assert_eq!(
        root_of(true, &Natural::new(1), &square.times(&square)),
        scientific(true, 7_458_340_731_200_206_743_290_965_315, -182),
    );
}

fn with_closes(closes: &[(i128, u32)]) -> Vec<OhlcvBar> {
    closes
        .iter()
        .map(|&(mantissa, scale)| {
            let mut b = bar(1, 1, 1, 1, 1);
            b.close = Decimal::from_parts(mantissa, scale).unwrap();
            b.volume = b.close;
            b
        })
        .collect()
}

#[test]
fn deviations_have_digits_for_small_and_great_numbers() {
    let one = 1_000_000_000_000_000_000_000_000_000;
    let small = with_closes(&[(1, 15), (3, 15)]);
    assert_eq!(OhlcvBar::close_std_dev(&small), Some(scientific(false, one, -42)));
    let value = Decimal::from_parts(5, 15).unwrap();
    assert_eq!(OhlcvBar::close_z_score(&small, value), Some(scientific(false, 3 * one, -27)));
    let smallest = with_closes(&[(0, 28), (1, 28)]);
    assert_eq!(OhlcvBar::close_std_dev(&smallest), Some(scientific(false, 5 * one, -56)));
    assert_eq!(OhlcvBar::linear_regression_slope(&smallest), Some(scientific(false, one, -55)));
    let top = 79_228_162_514_264_337_593_543_950_335;
    let great = with_closes(&[(-top, 0), (top, 0)]);
    assert_eq!(
        OhlcvBar::close_std_dev(&great),
        Some(scientific(false, 7_922_816_251_426_433_759_354_395_033, 1)),
    );
    assert_eq!(
        OhlcvBar::volume_price_correlation(&great),
        Some(scientific(false, one, -27)),
    );
    assert_eq!(
        OhlcvBar::volume_std_dev(&with_closes(&[(1, 0), (1_000_000_000_000_001, 0)])),
        Some(scientific(false, 7_071_067_811_865_475_244_008_443_621, -13)),
    );
    assert_eq!(OhlcvBar::close_std_dev(&great[..1]), None);
}

#[test]
fn skewness_needs_a_deviation() {
    let skewed = with_closes(&[(1, 0), (1, 0), (4, 0)]);
    near(OhlcvBar::close_skewness(&skewed), 0.7071067811865476);
    near(OhlcvBar::volume_skewness(&skewed), 0.7071067811865476);
    // The deviation is the root of two times 1e-12, and of two times 1e-13.
    assert!(OhlcvBar::close_skewness(&with_closes(&[(1, 12), (1, 12), (4, 12)])).is_some());
    assert!(OhlcvBar::close_skewness(&with_closes(&[(1, 13), (1, 13), (4, 13)])).is_none());
    assert!(OhlcvBar::volume_skewness(&with_closes(&[(1, 13), (1, 13), (4, 13)])).is_some());
}

#[test]
fn energy_is_the_mean_square_of_the_ranges() {
    near(OhlcvBar::bar_energy(&sample()), 221.25);
    let mut wide = bar(0, 0, 0, 0, 1);
    wide.high = Decimal::from_parts(1_000_000_000_000_000, 0).unwrap();
    assert_eq!(
        OhlcvBar::bar_energy(&[wide]),
        Some(scientific(false, 1_000_000_000_000_000_000_000_000_000, 3)),
    );
}

#[test]
fn upper_wicks_are_taken_over_the_range() {
    near(OhlcvBar::high_low_body_ratio(&sample()[..1]), 0.25);
    near(OhlcvBar::high_low_body_ratio(&[bar(5, 5, 5, 5, 1)]), 0.5);
}

#[test]
fn up_volume_over_down_volume() {
    let (up, down) = (bar(1, 2, 1, 2, 3), bar(2, 2, 1, 1, 6));
    near(OhlcvBar::up_down_volume_ratio(&[up.clone(), down.clone()]), 0.5);
    // Up-bars without volume are up-bars.
    near(OhlcvBar::up_down_volume_ratio(&[bar(1, 2, 1, 2, 0), down.clone()]), 0.0);
    assert!(OhlcvBar::up_down_volume_ratio(&[up.clone()]).is_none());
    assert!(OhlcvBar::up_down_volume_ratio(&[down]).is_none());
    assert!(OhlcvBar::up_down_volume_ratio(&[up, bar(2, 2, 1, 1, 0)]).is_none());
}

#[test]
fn bodies_fall_into_buckets_of_equal_width() {
    // The bodies are 0, 1, 4, 7 and 8: the buckets are one wide.
    let bars = vec![
        bar(100, 110, 90, 100, 1),
        bar(100, 110, 90, 101, 1),
        bar(100, 110, 90, 104, 1),
        bar(100, 110, 90, 93, 1),
        bar(100, 110, 90, 108, 1),
    ];
    assert_eq!(OhlcvBar::body_size_buckets(&bars), Some(vec![1, 1, 0, 0, 1, 0, 0, 2]));
    assert_eq!(OhlcvBar::body_size_buckets(&bars[..1]), None);
    let flat = vec![bar(100, 110, 90, 103, 1), bar(100, 110, 90, 97, 1)];
    assert_eq!(OhlcvBar::body_size_buckets(&flat), Some(vec![2, 0, 0, 0, 0, 0, 0, 0]));
    let with = |mantissas: [i128; 4], scale: u32| {
        let mut bars = Vec::new();
        for m in mantissas {
            let mut b = bar(0, 0, 0, 0, 1);
            b.close = Decimal::from_parts(m, scale).unwrap();
            bars.push(b);
        }
        OhlcvBar::body_size_buckets(&bars).unwrap()
    };
    let top = 79_228_162_514_264_337_593_543_950_335;
    assert_eq!(with([0, top, -top / 2, 1], 0), vec![2, 0, 0, 1, 0, 0, 0, 1]);
    assert_eq!(with([0, top, -top / 2 - 1, 1], 0), vec![2, 0, 0, 0, 1, 0, 0, 1]);
    assert_eq!(with([0, top, -top / 2 - 1, 1], 28), vec![2, 0, 0, 0, 1, 0, 0, 1]);
    assert_eq!(with([0, 1, 2, 3], 28), vec![1, 0, 1, 0, 0, 1, 0, 1]);
}

#[test]
fn volume_weights_are_shares_of_the_total() {
    let bars = vec![bar(1, 1, 1, 1, 1), bar(1, 1, 1, 1, 3)];
    let want = vec![Decimal::hundredths(25), Decimal::hundredths(75)];
    assert_eq!(OhlcvBar::volume_weights(&bars), Some(want));
    assert_eq!(OhlcvBar::volume_weights(&[bar(1, 1, 1, 1, 0)]), Some(vec![]));
    assert_eq!(OhlcvBar::volume_weights(&[]), None);
}

#[test]
fn deviation_of_vwaps_leaves_out_bars_without_one() {
    let with = |vwap: Option<i64>| {
        let mut b = bar(100, 110, 90, 100, 1);
        b.vwap = vwap.map(Decimal::whole);
        b
    };
    let bars = vec![with(Some(100)), with(None), with(Some(106))];
    near(OhlcvBar::vwap_deviation_avg(&bars), 3.0);
    assert!(OhlcvBar::vwap_deviation_avg(&bars[1..2]).is_none());
}

#[test]
fn mean_shares_of_valid_bars_lie_within_one() {
    let bars = sample();
    for mean in [OhlcvBar::mean_body_ratio(&bars), OhlcvBar::close_to_range_position(&bars)] {
        assert!((0.0..=1.0).contains(&mean.unwrap().float()));
    }
    assert!((-1.0..=1.0).contains(&OhlcvBar::mean_clv(&bars).unwrap().float()));
    assert!(OhlcvBar::high_close_spread(&bars).unwrap().float() >= 0.0);
}

#[test]
fn moving_average_of_highs_moves() {
    let bars = vec![
        bar(100, 110, 90, 105, 1),
        bar(110, 120, 108, 118, 1),
        bar(100, 100, 95, 100, 1),
        bar(100, 104, 95, 103, 1),
    ];
    // The averages are 115, 110 and 102.
    assert_eq!(OhlcvBar::close_above_high_ma(&bars, 2), 2);
    assert_eq!(OhlcvBar::close_above_high_ma(&bars, 0), 0);
    assert_eq!(OhlcvBar::close_above_high_ma(&bars, 5), 0);
}
