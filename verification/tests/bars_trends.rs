use fin_stream::bar::OhlcvBar;
use fin_stream::decimal::Decimal;
use fin_stream::scientific::Scientific;
use fin_stream::timeframe::Timeframe;
use rust_decimal::prelude::ToPrimitive;

/// The number that a literal writes.
fn dec(text: &str) -> Decimal {
    let d: rust_decimal::Decimal = text.parse().unwrap();
    Decimal::from_parts(d.mantissa(), d.scale()).unwrap()
}

fn float(d: Decimal) -> f64 {
    let (mantissa, scale) = d.parts();
    rust_decimal::Decimal::from_i128_with_scale(mantissa, scale).to_f64().unwrap()
}

fn decimal_f64(d: Option<Decimal>) -> Option<f64> {
    d.map(float)
}

fn scientific_f64(x: Option<Scientific>) -> Option<f64> {
    x.map(|x| {
        let sign = if x.negative { "-" } else { "" };
        format!("{sign}{}e{}", x.mantissa, x.exponent).parse().unwrap()
    })
}

fn make_ohlcv_bar(open: Decimal, high: Decimal, low: Decimal, close: Decimal) -> OhlcvBar {
    OhlcvBar {
        symbol: "X".into(),
        timeframe: Timeframe::Minutes(1),
        open,
        high,
        low,
        close,
        volume: dec("1"),
        bar_start_ms: 0,
        trade_count: 1,
        is_complete: false,
        is_gap_fill: false,
        vwap: None,
    }
}

#[test]
fn test_linear_regression_slope_none_for_single_bar() {
    let bar = make_ohlcv_bar(dec("100"), dec("110"), dec("90"), dec("105"));
    assert!(scientific_f64(OhlcvBar::linear_regression_slope(&[bar])).is_none());
}

#[test]
fn test_linear_regression_slope_positive_for_rising_closes() {
    let bars = vec![
        make_ohlcv_bar(dec("100"), dec("110"), dec("90"), dec("100")),
        make_ohlcv_bar(dec("100"), dec("115"), dec("95"), dec("110")),
        make_ohlcv_bar(dec("110"), dec("120"), dec("105"), dec("120")),
    ];
    let slope = scientific_f64(OhlcvBar::linear_regression_slope(&bars)).unwrap();
    assert!(slope > 0.0, "slope should be positive for rising closes");
}

#[test]
fn test_linear_regression_slope_negative_for_falling_closes() {
    let bars = vec![
        make_ohlcv_bar(dec("120"), dec("125"), dec("115"), dec("120")),
        make_ohlcv_bar(dec("120"), dec("115"), dec("105"), dec("110")),
        make_ohlcv_bar(dec("110"), dec("108"), dec("95"), dec("100")),
    ];
    let slope = scientific_f64(OhlcvBar::linear_regression_slope(&bars)).unwrap();
    assert!(slope < 0.0, "slope should be negative for falling closes");
}

#[test]
fn test_linear_regression_slope_near_zero_for_flat_closes() {
    let bars = vec![
        make_ohlcv_bar(dec("100"), dec("110"), dec("90"), dec("100")),
        make_ohlcv_bar(dec("100"), dec("110"), dec("90"), dec("100")),
        make_ohlcv_bar(dec("100"), dec("110"), dec("90"), dec("100")),
    ];
    let slope = scientific_f64(OhlcvBar::linear_regression_slope(&bars)).unwrap();
    assert!(slope.abs() < 1e-10, "slope should be ~0 for identical closes");
}

#[test]
fn test_volume_slope_none_for_single_bar() {
    let bar = make_ohlcv_bar(dec("100"), dec("110"), dec("90"), dec("100"));
    assert!(scientific_f64(OhlcvBar::volume_slope(&[bar])).is_none());
}

#[test]
fn test_volume_slope_positive_for_rising_volume() {
    let make_bar_with_vol = |v: u64| {
        let mut b = make_ohlcv_bar(dec("100"), dec("110"), dec("90"), dec("100"));
        b.volume = Decimal::count(v);
        b
    };
    let bars = vec![make_bar_with_vol(100), make_bar_with_vol(200), make_bar_with_vol(300)];
    assert!(scientific_f64(OhlcvBar::volume_slope(&bars)).unwrap() > 0.0);
}

#[test]
fn test_mean_clv_none_for_empty_slice() {
    assert!(decimal_f64(OhlcvBar::mean_clv(&[])).is_none());
}

#[test]
fn test_mean_clv_positive_for_bullish_closes() {
    let bars = vec![
        make_ohlcv_bar(dec("100"), dec("110"), dec("90"), dec("108")), // close near high
        make_ohlcv_bar(dec("100"), dec("110"), dec("90"), dec("106")), // close above mid
    ];
    let clv = decimal_f64(OhlcvBar::mean_clv(&bars)).unwrap();
    assert!(clv > 0.0, "mean CLV should be positive when closes are near highs");
}

#[test]
fn test_ema_none_for_empty_slice() {
    assert!(decimal_f64(OhlcvBar::ema(&[], dec("0.5"))).is_none());
}

#[test]
fn test_ema_single_bar_equals_close() {
    let bar = make_ohlcv_bar(dec("100"), dec("110"), dec("90"), dec("105"));
    let e = decimal_f64(OhlcvBar::ema(&[bar], dec("0.5"))).unwrap();
    assert!((e - 105.0).abs() < 1e-9);
}

#[test]
fn test_ema_alpha_one_equals_last_close() {
    let b1 = make_ohlcv_bar(dec("100"), dec("110"), dec("90"), dec("100"));
    let b2 = make_ohlcv_bar(dec("100"), dec("110"), dec("90"), dec("200"));
    let e = decimal_f64(OhlcvBar::ema(&[b1, b2], dec("1.0"))).unwrap();
    assert!((e - 200.0).abs() < 1e-9);
}

#[test]
fn test_price_path_length_none_for_single_bar() {
    let b = make_ohlcv_bar(dec("100"), dec("110"), dec("90"), dec("105"));
    assert!(decimal_f64(OhlcvBar::price_path_length(&[b])).is_none());
}

#[test]
fn test_price_path_length_correct() {
    // closes: 100, 110, 105 → |10| + |5| = 15
    let b1 = make_ohlcv_bar(dec("98"), dec("102"), dec("96"), dec("100"));
    let b2 = make_ohlcv_bar(dec("100"), dec("112"), dec("99"), dec("110"));
    let b3 = make_ohlcv_bar(dec("110"), dec("112"), dec("103"), dec("105"));
    let len = decimal_f64(OhlcvBar::price_path_length(&[b1, b2, b3])).unwrap();
    assert!((len - 15.0).abs() < 1e-6, "expected 15.0, got {}", len);
}

#[test]
fn test_volume_oscillator_none_for_insufficient_bars() {
    let bars = vec![make_ohlcv_bar(dec("100"), dec("110"), dec("90"), dec("105"))];
    assert!(decimal_f64(OhlcvBar::volume_oscillator(&bars, 1, 3)).is_none());
}

#[test]
fn test_volume_oscillator_none_when_short_ge_long() {
    let bars: Vec<_> = (0..5)
        .map(|_| make_ohlcv_bar(dec("100"), dec("110"), dec("90"), dec("105")))
        .collect();
    assert!(decimal_f64(OhlcvBar::volume_oscillator(&bars, 3, 2)).is_none());
}

#[test]
fn test_volume_oscillator_zero_for_constant_volume() {
    let bars: Vec<_> = (0..5)
        .map(|_| make_ohlcv_bar(dec("100"), dec("110"), dec("90"), dec("105")))
        .collect();
    let v = decimal_f64(OhlcvBar::volume_oscillator(&bars, 2, 4)).unwrap();
    assert!(v.abs() < 1e-9, "constant volume → oscillator=0, got {}", v);
}

#[test]
fn test_volume_weighted_range_none_for_empty() {
    assert!(decimal_f64(OhlcvBar::volume_weighted_range(&[])).is_none());
}

#[test]
fn test_volume_weighted_range_positive() {
    let b1 = make_ohlcv_bar(dec("100"), dec("120"), dec("80"), dec("110"));
    let b2 = make_ohlcv_bar(dec("110"), dec("130"), dec("100"), dec("120"));
    let r = decimal_f64(OhlcvBar::volume_weighted_range(&[b1, b2])).unwrap();
    assert!(r > 0.0, "should be positive, got {}", r);
}

#[test]
fn test_vwap_deviation_avg_none_for_empty() {
    assert!(decimal_f64(OhlcvBar::vwap_deviation_avg(&[])).is_none());
}

#[test]
fn test_net_directional_move_none_for_empty() {
    assert!(decimal_f64(OhlcvBar::net_directional_move(&[])).is_none());
}

#[test]
fn test_net_directional_move_positive_for_rising_close() {
    let b1 = make_ohlcv_bar(dec("100"), dec("110"), dec("90"), dec("105"));
    let b2 = make_ohlcv_bar(dec("105"), dec("120"), dec("100"), dec("115"));
    let m = decimal_f64(OhlcvBar::net_directional_move(&[b1, b2])).unwrap();
    assert!(m > 0.0, "rising bar sequence → positive move, got {}", m);
}

#[test]
fn test_volume_trend_slope_none_for_single_bar() {
    let b = make_ohlcv_bar(dec("100"), dec("110"), dec("90"), dec("105"));
    assert!(scientific_f64(OhlcvBar::volume_trend_slope(&[b])).is_none());
}

#[test]
fn test_volume_trend_slope_negative_for_falling_volume() {
    // volumes: 200, 100 → slope < 0
    let mut b1 = make_ohlcv_bar(dec("100"), dec("110"), dec("90"), dec("105"));
    b1.volume = dec("200");
    let mut b2 = make_ohlcv_bar(dec("105"), dec("115"), dec("95"), dec("110"));
    b2.volume = dec("100");
    let s = scientific_f64(OhlcvBar::volume_trend_slope(&[b1, b2])).unwrap();
    assert!(s < 0.0, "falling volume → negative slope, got {}", s);
}

#[test]
fn test_avg_true_range_pct_none_for_empty() {
    assert!(decimal_f64(OhlcvBar::avg_true_range_pct(&[])).is_none());
}

#[test]
fn test_avg_true_range_pct_basic() {
    // high=110, low=90, close=100 → (110-90)/100 = 0.2
    let b = make_ohlcv_bar(dec("100"), dec("110"), dec("90"), dec("100"));
    let r = decimal_f64(OhlcvBar::avg_true_range_pct(&[b])).unwrap();
    assert!((r - 0.2).abs() < 1e-9, "expected 0.2, got {}", r);
}

#[test]
fn test_avg_close_deviation_none_for_empty() {
    assert!(decimal_f64(OhlcvBar::avg_close_deviation(&[])).is_none());
}

#[test]
fn test_avg_close_deviation_basic() {
    // closes: 100, 120 → mean=110 → MAD = (10+10)/2 = 10
    let b1 = make_ohlcv_bar(dec("100"), dec("120"), dec("95"), dec("100"));
    let b2 = make_ohlcv_bar(dec("100"), dec("125"), dec("95"), dec("120"));
    let d = decimal_f64(OhlcvBar::avg_close_deviation(&[b1, b2])).unwrap();
    assert!((d - 10.0).abs() < 1e-9, "expected 10.0, got {}", d);
}

#[test]
fn test_volume_weighted_close_change_none_for_single() {
    let b = make_ohlcv_bar(dec("100"), dec("110"), dec("90"), dec("105"));
    assert!(decimal_f64(OhlcvBar::volume_weighted_close_change(&[b])).is_none());
}

#[test]
fn test_volume_weighted_close_change_basic() {
    // bar1 close=100 vol=0, bar2 close=110 vol=10 → chg=10, vol=10 → result=10
    let b1 = make_ohlcv_bar(dec("100"), dec("110"), dec("90"), dec("100"));
    let b2 = make_ohlcv_bar(dec("100"), dec("115"), dec("95"), dec("110"));
    let v = decimal_f64(OhlcvBar::volume_weighted_close_change(&[b1, b2])).unwrap();
    // b2 volume from make_ohlcv_bar is dec("1000") by default, chg=10 → result=10
    assert!((v - 10.0).abs() < 1e-9, "expected 10.0, got {}", v);
}

#[test]
fn test_volume_ratio_to_max_none_for_empty() {
    assert!(decimal_f64(OhlcvBar::volume_ratio_to_max(&[])).is_none());
}

#[test]
fn test_volume_ratio_to_max_basic() {
    // all same volume → all ratio=1.0 → mean=1.0
    let b1 = make_ohlcv_bar(dec("100"), dec("110"), dec("90"), dec("105"));
    let b2 = make_ohlcv_bar(dec("100"), dec("115"), dec("95"), dec("110"));
    let r = decimal_f64(OhlcvBar::volume_ratio_to_max(&[b1, b2])).unwrap();
    assert!((r - 1.0).abs() < 1e-9, "expected 1.0, got {}", r);
}

#[test]
fn test_bar_consolidation_score_none_for_zero_range() {
    let b = make_ohlcv_bar(dec("100"), dec("100"), dec("100"), dec("100"));
    assert!(decimal_f64(OhlcvBar::bar_consolidation_score(&[b])).is_none());
}

#[test]
fn test_bar_consolidation_score_low_for_full_body() {
    // open=100, close=110, high=110, low=100 → body/range=1 → score=1-1=0 (no consolidation)
    let b = make_ohlcv_bar(dec("100"), dec("110"), dec("100"), dec("110"));
    let s = decimal_f64(OhlcvBar::bar_consolidation_score(&[b])).unwrap();
    assert!(s.abs() < 1e-9, "expected 0.0, got {}", s);
}

#[test]
fn test_volume_concentration_ratio_none_for_empty() {
    assert!(decimal_f64(OhlcvBar::volume_concentration_ratio(&[])).is_none());
}

#[test]
fn test_volume_concentration_ratio_basic() {
    // single bar → top 1 = all → ratio=1.0
    let b = make_ohlcv_bar(dec("100"), dec("110"), dec("90"), dec("105"));
    let r = decimal_f64(OhlcvBar::volume_concentration_ratio(&[b])).unwrap();
    assert!((r - 1.0).abs() < 1e-9, "expected 1.0, got {}", r);
}

#[test]
fn test_volume_deceleration_none_for_single() {
    assert!(decimal_f64(OhlcvBar::volume_deceleration(&[make_ohlcv_bar(dec("100"), dec("110"), dec("90"), dec("100"))])).is_none());
}

#[test]
fn test_volume_deceleration_no_decreasing_is_zero() {
    // increasing volume → no decreasing pairs → 0.0
    let mut b1 = make_ohlcv_bar(dec("100"), dec("110"), dec("90"), dec("100"));
    b1.volume = dec("5");
    let mut b2 = make_ohlcv_bar(dec("100"), dec("110"), dec("90"), dec("100"));
    b2.volume = dec("10");
    let d = decimal_f64(OhlcvBar::volume_deceleration(&[b1, b2])).unwrap();
    assert!((d - 0.0).abs() < 1e-9, "expected 0.0, got {}", d);
}

#[test]
fn test_shadow_body_ratio_none_for_empty() {
    assert!(decimal_f64(OhlcvBar::shadow_body_ratio(&[])).is_none());
}

#[test]
fn test_shadow_body_ratio_doji_none() {
    // open=close → body=0 → None
    let b = make_ohlcv_bar(dec("100"), dec("110"), dec("90"), dec("100"));
    assert!(decimal_f64(OhlcvBar::shadow_body_ratio(&[b])).is_none());
}

#[test]
fn test_body_ema_none_for_empty() {
    assert!(decimal_f64(OhlcvBar::body_ema(&[])).is_none());
}

#[test]
fn test_body_ema_single() {
    // open=100, close=105 → body=5
    let b = make_ohlcv_bar(dec("100"), dec("110"), dec("90"), dec("105"));
    let e = decimal_f64(OhlcvBar::body_ema(&[b])).unwrap();
    assert!((e - 5.0).abs() < 1e-9, "expected 5.0, got {}", e);
}

#[test]
fn test_close_trend_strength_none_for_single() {
    assert!(decimal_f64(OhlcvBar::close_trend_strength(&[make_ohlcv_bar(dec("100"), dec("110"), dec("90"), dec("105"))])).is_none());
}

#[test]
fn test_close_trend_strength_full_up() {
    let b1 = make_ohlcv_bar(dec("100"), dec("110"), dec("90"), dec("100"));
    let b2 = make_ohlcv_bar(dec("100"), dec("120"), dec("100"), dec("110"));
    let t = decimal_f64(OhlcvBar::close_trend_strength(&[b1, b2])).unwrap();
    assert!((t - 1.0).abs() < 1e-9, "expected 1.0, got {}", t);
}

#[test]
fn test_bar_range_mean_dev_none_for_empty() {
    assert!(decimal_f64(OhlcvBar::bar_range_mean_dev(&[])).is_none());
}

#[test]
fn test_bar_range_mean_dev_identical() {
    let b1 = make_ohlcv_bar(dec("100"), dec("110"), dec("90"), dec("105"));
    let b2 = make_ohlcv_bar(dec("100"), dec("110"), dec("90"), dec("105"));
    let d = decimal_f64(OhlcvBar::bar_range_mean_dev(&[b1, b2])).unwrap();
    assert!(d.abs() < 1e-9, "expected 0.0 for identical ranges, got {}", d);
}

#[test]
fn test_volume_trend_ratio_none_for_empty() {
    assert!(decimal_f64(OhlcvBar::volume_trend_ratio(&[])).is_none());
}

#[test]
fn test_volume_trend_ratio_equal() {
    let b = make_ohlcv_bar(dec("100"), dec("110"), dec("90"), dec("105"));
    let r = decimal_f64(OhlcvBar::volume_trend_ratio(&[b])).unwrap();
    assert!((r - 1.0).abs() < 1e-9, "expected 1.0 for single bar, got {}", r);
}
