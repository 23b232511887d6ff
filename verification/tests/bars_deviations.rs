use fin_stream::bar::OhlcvBar;
use fin_stream::decimal::Decimal;
use fin_stream::scientific::Scientific;
use fin_stream::timeframe::Timeframe;

/// The number that a literal writes.
fn dec(text: &str) -> Decimal {
    let d: rust_decimal::Decimal = text.parse().unwrap();
    Decimal::from_parts(d.mantissa(), d.scale()).unwrap()
}

fn scientific_f64(x: Option<Scientific>) -> Option<f64> {
    x.map(|x| {
        let sign = if x.negative { "-" } else { "" };
        format!("{sign}{}e{}", x.mantissa, x.exponent).parse().unwrap()
    })
}

fn make_ohlcv_bar(open: Decimal, high: Decimal, low: Decimal, close: Decimal) -> OhlcvBar {
    OhlcvBar {
        symbol: "X".into(),
        timeframe: Timeframe::Minutes(1),
        open,
        high,
        low,
        close,
        volume: dec("1"),
        bar_start_ms: 0,
        trade_count: 1,
        is_complete: false,
        is_gap_fill: false,
        vwap: None,
    }
}

/// The arithmetic mean.
fn mean(values: &[f64]) -> Option<f64> {
    if values.is_empty() {
        return None;
    }
    Some(values.iter().sum::<f64>() / values.len() as f64)
}

/// The standard deviation around `center`.
fn population_std(values: &[f64], center: f64) -> f64 {
    (values.iter().map(|v| (v - center).powi(2)).sum::<f64>() / values.len() as f64).sqrt()
}

#[test]
fn test_close_std_dev_none_for_single_bar() {
    let bar = make_ohlcv_bar(dec("100"), dec("110"), dec("90"), dec("100"));
    assert!(scientific_f64(OhlcvBar::close_std_dev(&[bar])).is_none());
}

#[test]
fn test_close_std_dev_zero_for_identical_closes() {
    let bars = vec![
        make_ohlcv_bar(dec("100"), dec("110"), dec("90"), dec("100")),
        make_ohlcv_bar(dec("100"), dec("110"), dec("90"), dec("100")),
    ];
    let sd = scientific_f64(OhlcvBar::close_std_dev(&bars)).unwrap();
    assert!(sd.abs() < 1e-10, "std_dev should be ~0 for identical closes");
}

#[test]
fn test_close_std_dev_positive_for_varied_closes() {
    let bars = vec![
        make_ohlcv_bar(dec("100"), dec("110"), dec("90"), dec("90")),
        make_ohlcv_bar(dec("100"), dec("110"), dec("90"), dec("110")),
    ];
    assert!(scientific_f64(OhlcvBar::close_std_dev(&bars)).unwrap() > 0.0);
}

#[test]
fn test_close_z_score_none_for_empty_slice() {
    assert!(scientific_f64(OhlcvBar::close_z_score(&[], dec("100"))).is_none());
}

#[test]
fn test_close_z_score_of_mean_is_zero() {
    let bars = vec![
        make_ohlcv_bar(dec("100"), dec("110"), dec("90"), dec("100")),
        make_ohlcv_bar(dec("100"), dec("110"), dec("90"), dec("100")),
        make_ohlcv_bar(dec("100"), dec("110"), dec("90"), dec("110")),
    ];
    // mean close = (100+100+110)/3 ≈ 103.33; z-score of mean should be ≈ 0
    let mean = (dec("100") + dec("100") + dec("110")) / dec("3");
    let z = scientific_f64(OhlcvBar::close_z_score(&bars, mean)).unwrap();
    assert!(z.abs() < 1e-6);
}

#[test]
fn test_close_z_score_positive_above_mean() {
    let bars = vec![
        make_ohlcv_bar(dec("100"), dec("110"), dec("90"), dec("100")),
        make_ohlcv_bar(dec("100"), dec("110"), dec("90"), dec("100")),
        make_ohlcv_bar(dec("100"), dec("110"), dec("90"), dec("110")),
    ];
    let z = scientific_f64(OhlcvBar::close_z_score(&bars, dec("120"))).unwrap();
    assert!(z > 0.0);
}

#[test]
fn test_bollinger_band_width_none_for_empty_slice() {
    assert!(scientific_f64(OhlcvBar::bollinger_band_width(&[])).is_none());
}

#[test]
fn test_bollinger_band_width_zero_for_identical_closes() {
    let bars = vec![
        make_ohlcv_bar(dec("100"), dec("110"), dec("90"), dec("100")),
        make_ohlcv_bar(dec("100"), dec("110"), dec("90"), dec("100")),
    ];
    assert_eq!(scientific_f64(OhlcvBar::bollinger_band_width(&bars)), Some(0.0));
}

#[test]
fn test_bollinger_band_width_positive_for_varying_closes() {
    let bars = vec![
        make_ohlcv_bar(dec("100"), dec("110"), dec("90"), dec("90")),
        make_ohlcv_bar(dec("100"), dec("110"), dec("90"), dec("100")),
        make_ohlcv_bar(dec("100"), dec("110"), dec("90"), dec("110")),
    ];
    let bw = scientific_f64(OhlcvBar::bollinger_band_width(&bars)).unwrap();
    assert!(bw > 0.0);
}

#[test]
fn test_volume_std_dev_none_for_single_bar() {
    let mut b = make_ohlcv_bar(dec("100"), dec("110"), dec("90"), dec("105"));
    b.volume = dec("100");
    assert!(scientific_f64(OhlcvBar::volume_std_dev(&[b])).is_none());
}

#[test]
fn test_volume_std_dev_zero_for_identical_volumes() {
    let mut b1 = make_ohlcv_bar(dec("100"), dec("110"), dec("90"), dec("105")); b1.volume = dec("50");
    let mut b2 = make_ohlcv_bar(dec("100"), dec("110"), dec("90"), dec("105")); b2.volume = dec("50");
    assert_eq!(scientific_f64(OhlcvBar::volume_std_dev(&[b1, b2])), Some(0.0));
}

#[test]
fn test_volume_std_dev_positive_for_varied_volumes() {
    let mut b1 = make_ohlcv_bar(dec("100"), dec("110"), dec("90"), dec("105")); b1.volume = dec("10");
    let mut b2 = make_ohlcv_bar(dec("100"), dec("110"), dec("90"), dec("105")); b2.volume = dec("100");
    let std = scientific_f64(OhlcvBar::volume_std_dev(&[b1, b2])).unwrap();
    assert!(std > 0.0);
}

#[test]
fn test_volume_price_correlation_none_for_single_bar() {
    let b = make_ohlcv_bar(dec("100"), dec("110"), dec("90"), dec("105"));
    assert!(scientific_f64(OhlcvBar::volume_price_correlation(&[b])).is_none());
}

#[test]
fn test_volume_price_correlation_positive_for_comoving() {
    // Both volume and close rise together
    let mut b1 = make_ohlcv_bar(dec("100"), dec("105"), dec("98"), dec("102")); b1.volume = dec("100");
    let mut b2 = make_ohlcv_bar(dec("102"), dec("110"), dec("100"), dec("108")); b2.volume = dec("200");
    let corr = scientific_f64(OhlcvBar::volume_price_correlation(&[b1, b2])).unwrap();
    assert!(corr > 0.0, "expected positive correlation, got {}", corr);
}

#[test]
fn test_close_volatility_ratio_none_for_single_bar() {
    let b = make_ohlcv_bar(dec("100"), dec("110"), dec("90"), dec("105"));
    assert!(scientific_f64(OhlcvBar::close_volatility_ratio(&[b])).is_none());
}

#[test]
fn test_close_volatility_ratio_positive_for_varied_closes() {
    let b1 = make_ohlcv_bar(dec("100"), dec("110"), dec("90"), dec("100"));
    let b2 = make_ohlcv_bar(dec("110"), dec("120"), dec("105"), dec("115"));
    let r = scientific_f64(OhlcvBar::close_volatility_ratio(&[b1, b2])).unwrap();
    assert!(r > 0.0, "expected positive ratio, got {}", r);
}

#[test]
fn test_close_volatility_ratio_zero_for_identical_closes() {
    let b1 = make_ohlcv_bar(dec("100"), dec("110"), dec("90"), dec("105"));
    let b2 = make_ohlcv_bar(dec("100"), dec("112"), dec("88"), dec("105"));
    let r = scientific_f64(OhlcvBar::close_volatility_ratio(&[b1, b2])).unwrap();
    assert!((r - 0.0).abs() < 1e-9, "expected 0.0 for identical closes, got {}", r);
}

#[test]
fn test_volume_trend_strength_none_for_single_bar() {
    let b = make_ohlcv_bar(dec("100"), dec("110"), dec("90"), dec("105"));
    assert!(scientific_f64(OhlcvBar::volume_trend_strength(&[b])).is_none());
}

#[test]
fn test_volume_trend_strength_positive_for_rising_volume() {
    let mut b1 = make_ohlcv_bar(dec("100"), dec("110"), dec("90"), dec("105")); b1.volume = dec("100");
    let mut b2 = make_ohlcv_bar(dec("105"), dec("115"), dec("103"), dec("110")); b2.volume = dec("200");
    let mut b3 = make_ohlcv_bar(dec("110"), dec("120"), dec("108"), dec("115")); b3.volume = dec("300");
    let s = scientific_f64(OhlcvBar::volume_trend_strength(&[b1, b2, b3])).unwrap();
    assert!(s > 0.0, "rising volume should give positive strength, got {}", s);
}

#[test]
fn test_range_std_dev_none_for_single_bar() {
    let b = make_ohlcv_bar(dec("100"), dec("110"), dec("90"), dec("105"));
    assert!(scientific_f64(OhlcvBar::range_std_dev(&[b])).is_none());
}

#[test]
fn test_range_std_dev_zero_for_equal_ranges() {
    let b1 = make_ohlcv_bar(dec("100"), dec("110"), dec("90"), dec("105"));
    let b2 = make_ohlcv_bar(dec("200"), dec("210"), dec("190"), dec("205"));
    let sd = scientific_f64(OhlcvBar::range_std_dev(&[b1, b2])).unwrap();
    assert!(sd.abs() < 1e-9, "equal ranges → std_dev=0, got {}", sd);
}

#[test]
fn test_open_to_close_volatility_none_for_single_bar() {
    let bar = make_ohlcv_bar(dec("100"), dec("110"), dec("90"), dec("105"));
    assert!(scientific_f64(OhlcvBar::open_to_close_volatility(&[bar])).is_none());
}

#[test]
fn test_open_to_close_volatility_zero_for_identical_bars() {
    let bars = vec![
        make_ohlcv_bar(dec("100"), dec("110"), dec("90"), dec("105")),
        make_ohlcv_bar(dec("100"), dec("110"), dec("90"), dec("105")),
        make_ohlcv_bar(dec("100"), dec("110"), dec("90"), dec("105")),
    ];
    let v = scientific_f64(OhlcvBar::open_to_close_volatility(&bars)).unwrap();
    assert!(v.abs() < 1e-9, "identical bars → volatility=0, got {}", v);
}

#[test]
fn test_close_to_high_std_none_for_single_bar() {
    let b = make_ohlcv_bar(dec("100"), dec("110"), dec("90"), dec("105"));
    assert!(scientific_f64(OhlcvBar::close_to_high_std(&[b])).is_none());
}

#[test]
fn test_close_to_high_std_zero_for_identical_bars() {
    let b1 = make_ohlcv_bar(dec("100"), dec("110"), dec("90"), dec("105"));
    let b2 = make_ohlcv_bar(dec("100"), dec("110"), dec("90"), dec("105"));
    let sd = scientific_f64(OhlcvBar::close_to_high_std(&[b1, b2])).unwrap();
    assert!(sd.abs() < 1e-9, "identical bars → std=0, got {}", sd);
}

#[test]
fn test_typical_price_std_none_for_single_bar() {
    let b = make_ohlcv_bar(dec("100"), dec("110"), dec("90"), dec("105"));
    assert!(scientific_f64(OhlcvBar::typical_price_std(&[b])).is_none());
}

#[test]
fn test_typical_price_std_zero_for_identical_bars() {
    let b1 = make_ohlcv_bar(dec("100"), dec("110"), dec("90"), dec("105"));
    let b2 = make_ohlcv_bar(dec("100"), dec("110"), dec("90"), dec("105"));
    let sd = scientific_f64(OhlcvBar::typical_price_std(&[b1, b2])).unwrap();
    assert!(sd.abs() < 1e-9, "identical bars → std=0, got {}", sd);
}

#[test]
fn test_volume_std_none_for_single_bar() {
    let b = make_ohlcv_bar(dec("100"), dec("110"), dec("90"), dec("105"));
    assert!(scientific_f64(OhlcvBar::volume_std(&[b])).is_none());
}

#[test]
fn test_volume_std_zero_for_equal_volumes() {
    let b1 = make_ohlcv_bar(dec("100"), dec("110"), dec("90"), dec("105"));
    let b2 = make_ohlcv_bar(dec("100"), dec("110"), dec("90"), dec("105"));
    let s = scientific_f64(OhlcvBar::volume_std(&[b1, b2])).unwrap();
    assert!(s.abs() < 1e-9, "equal volumes → std=0, got {}", s);
}

#[test]
fn test_close_skewness_none_for_two_bars() {
    let b1 = make_ohlcv_bar(dec("100"), dec("110"), dec("90"), dec("105"));
    let b2 = make_ohlcv_bar(dec("105"), dec("115"), dec("95"), dec("110"));
    assert!(scientific_f64(OhlcvBar::close_skewness(&[b1, b2])).is_none());
}

#[test]
fn test_close_skewness_returns_value_for_three_bars() {
    let b1 = make_ohlcv_bar(dec("100"), dec("110"), dec("90"), dec("100"));
    let b2 = make_ohlcv_bar(dec("100"), dec("110"), dec("90"), dec("105"));
    let b3 = make_ohlcv_bar(dec("100"), dec("110"), dec("90"), dec("200"));
    let s = scientific_f64(OhlcvBar::close_skewness(&[b1, b2, b3]));
    assert!(s.is_some(), "skewness should be computed for 3 bars");
}

#[test]
fn test_close_std_none_for_single() {
    let b = make_ohlcv_bar(dec("100"), dec("110"), dec("90"), dec("105"));
    assert!(scientific_f64(OhlcvBar::close_std(&[b])).is_none());
}

#[test]
fn test_close_std_zero_for_constant_close() {
    let b1 = make_ohlcv_bar(dec("100"), dec("110"), dec("90"), dec("105"));
    let b2 = make_ohlcv_bar(dec("101"), dec("111"), dec("91"), dec("105"));
    let s = scientific_f64(OhlcvBar::close_std(&[b1, b2])).unwrap();
    assert!(s.abs() < 1e-9, "constant close → std=0, got {}", s);
}

#[test]
fn test_body_to_range_std_none_for_single() {
    let b = make_ohlcv_bar(dec("100"), dec("110"), dec("90"), dec("105"));
    assert!(scientific_f64(OhlcvBar::body_to_range_std(&[b])).is_none());
}

#[test]
fn test_body_to_range_std_nonneg_for_varied_bars() {
    let b1 = make_ohlcv_bar(dec("100"), dec("110"), dec("90"), dec("105"));
    let b2 = make_ohlcv_bar(dec("100"), dec("120"), dec("80"), dec("100"));
    let s = scientific_f64(OhlcvBar::body_to_range_std(&[b1, b2])).unwrap();
    assert!(s >= 0.0, "std dev should be non-negative, got {}", s);
}

#[test]
fn test_open_std_none_for_single() {
    let b = make_ohlcv_bar(dec("100"), dec("110"), dec("90"), dec("105"));
    assert!(scientific_f64(OhlcvBar::open_std(&[b])).is_none());
}

#[test]
fn test_open_std_zero_for_constant_open() {
    let b1 = make_ohlcv_bar(dec("100"), dec("110"), dec("90"), dec("105"));
    let b2 = make_ohlcv_bar(dec("100"), dec("120"), dec("80"), dec("110"));
    let s = scientific_f64(OhlcvBar::open_std(&[b1, b2])).unwrap();
    assert!(s.abs() < 1e-9, "constant open → std=0, got {}", s);
}

#[test]
fn test_volume_dispersion_none_for_single_bar() {
    let b = make_ohlcv_bar(dec("90"), dec("110"), dec("85"), dec("100"));
    assert!(scientific_f64(OhlcvBar::volume_dispersion(&[b])).is_none());
}

#[test]
fn test_volume_dispersion_zero_for_equal_volumes() {
    let mut b1 = make_ohlcv_bar(dec("90"), dec("110"), dec("85"), dec("100"));
    let mut b2 = make_ohlcv_bar(dec("100"), dec("115"), dec("95"), dec("110"));
    b1.volume = dec("100");
    b2.volume = dec("100");
    let d = scientific_f64(OhlcvBar::volume_dispersion(&[b1, b2])).unwrap();
    assert!(d.abs() < 1e-9, "equal volumes → dispersion=0, got {}", d);
}

#[test]
fn test_open_close_correlation_none_for_single() {
    let b = make_ohlcv_bar(dec("100"), dec("110"), dec("90"), dec("105"));
    assert!(scientific_f64(OhlcvBar::open_close_correlation(&[b])).is_none());
}

#[test]
fn test_open_close_correlation_perfect() {
    // open and close move together perfectly → correlation = 1
    let b1 = make_ohlcv_bar(dec("100"), dec("120"), dec("90"), dec("110"));
    let b2 = make_ohlcv_bar(dec("110"), dec("130"), dec("100"), dec("120"));
    let corr = scientific_f64(OhlcvBar::open_close_correlation(&[b1, b2])).unwrap();
    assert!((corr - 1.0).abs() < 1e-9, "expected 1.0, got {}", corr);
}

#[test]
fn test_bar_range_zscore_none_for_single() {
    let b = make_ohlcv_bar(dec("100"), dec("110"), dec("90"), dec("105"));
    assert!(scientific_f64(OhlcvBar::bar_range_zscore(&[b])).is_none());
}

#[test]
fn test_bar_range_zscore_uniform_returns_zero() {
    // same range → z-score of each = 0 → mean = 0
    let b1 = make_ohlcv_bar(dec("100"), dec("110"), dec("90"), dec("105"));
    let b2 = make_ohlcv_bar(dec("100"), dec("110"), dec("90"), dec("105"));
    let z = scientific_f64(OhlcvBar::bar_range_zscore(&[b1, b2])).unwrap();
    assert!(z.abs() < 1e-9, "expected ~0, got {}", z);
}

#[test]
fn test_volume_zscore_none_for_single() {
    let b = make_ohlcv_bar(dec("100"), dec("110"), dec("90"), dec("105"));
    assert!(scientific_f64(OhlcvBar::volume_zscore(&[b])).is_none());
}

#[test]
fn test_volume_zscore_zero_for_uniform() {
    let b1 = make_ohlcv_bar(dec("100"), dec("110"), dec("90"), dec("105"));
    let b2 = make_ohlcv_bar(dec("100"), dec("110"), dec("90"), dec("105"));
    let z = scientific_f64(OhlcvBar::volume_zscore(&[b1, b2]));
    // uniform volume → std=0 → None
    assert!(z.is_none());
}

#[test]
fn test_body_skew_none_for_two() {
    let b1 = make_ohlcv_bar(dec("100"), dec("110"), dec("90"), dec("105"));
    let b2 = make_ohlcv_bar(dec("100"), dec("115"), dec("95"), dec("110"));
    assert!(scientific_f64(OhlcvBar::body_skew(&[b1, b2])).is_none());
}

#[test]
fn test_body_skew_basic() {
    let b1 = make_ohlcv_bar(dec("100"), dec("110"), dec("90"), dec("105"));
    let b2 = make_ohlcv_bar(dec("100"), dec("115"), dec("95"), dec("110"));
    let b3 = make_ohlcv_bar(dec("100"), dec("120"), dec("95"), dec("115"));
    let s = scientific_f64(OhlcvBar::body_skew(&[b1, b2, b3]));
    assert!(s.is_some());
}

#[test]
fn test_close_range_stability_none_for_empty() {
    assert!(scientific_f64(OhlcvBar::close_range_stability(&[])).is_none());
}

#[test]
fn test_close_range_stability_consistent() {
    // all bars: open=low=90, high=110, close=100 → close_pct=0.5 each → std=0 → stability=1
    let bars: Vec<_> = (0..3).map(|_| make_ohlcv_bar(dec("90"), dec("110"), dec("90"), dec("100"))).collect();
    let s = scientific_f64(OhlcvBar::close_range_stability(&bars)).unwrap();
    assert!((s - 1.0).abs() < 1e-9, "expected 1.0, got {}", s);
}

#[test]
fn test_body_volatility_none_for_empty() {
    assert!(scientific_f64(OhlcvBar::body_volatility(&[])).is_none());
}

#[test]
fn test_body_volatility_uniform_zero() {
    // all same body size → std=0
    let bars: Vec<_> = (0..3).map(|_| make_ohlcv_bar(dec("100"), dec("110"), dec("90"), dec("105"))).collect();
    let v = scientific_f64(OhlcvBar::body_volatility(&bars)).unwrap();
    assert!(v.abs() < 1e-9, "expected 0.0, got {}", v);
}

#[test]
fn test_close_lag1_autocorr_none_for_two() {
    let bars = [
        make_ohlcv_bar(dec("100"), dec("110"), dec("90"), dec("105")),
        make_ohlcv_bar(dec("105"), dec("115"), dec("100"), dec("110")),
    ];
    assert!(scientific_f64(OhlcvBar::close_lag1_autocorr(&bars)).is_none());
}

#[test]
fn test_close_lag1_autocorr_uniform_none() {
    // uniform close → var=0 → None
    let bars: Vec<_> = (0..4).map(|_| make_ohlcv_bar(dec("100"), dec("110"), dec("90"), dec("105"))).collect();
    assert!(scientific_f64(OhlcvBar::close_lag1_autocorr(&bars)).is_none());
}

#[test]
fn test_volume_skewness_none_for_two() {
    let bars = [
        make_ohlcv_bar(dec("100"), dec("110"), dec("90"), dec("105")),
        make_ohlcv_bar(dec("105"), dec("115"), dec("100"), dec("110")),
    ];
    assert!(scientific_f64(OhlcvBar::volume_skewness(&bars)).is_none());
}

#[test]
fn test_volume_skewness_uniform_none() {
    let bars: Vec<_> = (0..4).map(|_| make_ohlcv_bar(dec("100"), dec("110"), dec("90"), dec("105"))).collect();
    // all vol=1 → std=0 → None
    assert!(scientific_f64(OhlcvBar::volume_skewness(&bars)).is_none());
}

#[test]
fn test_body_range_zscore_none_for_single() {
    assert!(scientific_f64(OhlcvBar::body_range_zscore(&[make_ohlcv_bar(dec("100"), dec("110"), dec("90"), dec("105"))])).is_none());
}

#[test]
fn test_body_range_zscore_uniform_none() {
    let bars: Vec<_> = (0..3).map(|_| make_ohlcv_bar(dec("100"), dec("110"), dec("90"), dec("105"))).collect();
    // all same body → std=0 → None
    assert!(scientific_f64(OhlcvBar::body_range_zscore(&bars)).is_none());
}

#[test]
fn test_close_oscillation_amplitude_none_for_single() {
    assert!(scientific_f64(OhlcvBar::close_oscillation_amplitude(&[make_ohlcv_bar(dec("100"), dec("110"), dec("90"), dec("105"))])).is_none());
}

#[test]
fn test_close_oscillation_amplitude_identical() {
    let b1 = make_ohlcv_bar(dec("100"), dec("110"), dec("90"), dec("105"));
    let b2 = make_ohlcv_bar(dec("100"), dec("110"), dec("90"), dec("105"));
    let a = scientific_f64(OhlcvBar::close_oscillation_amplitude(&[b1, b2])).unwrap();
    assert!(a.abs() < 1e-9, "expected 0.0 for identical closes, got {}", a);
}
