use fin_stream::bar::OhlcvBar;
use fin_stream::decimal::Decimal;
use fin_stream::timeframe::Timeframe;
use rust_decimal::prelude::ToPrimitive;

/// The number that a literal writes.
fn dec(text: &str) -> Decimal {
    let d: rust_decimal::Decimal = text.parse().unwrap();
    Decimal::from_parts(d.mantissa(), d.scale()).unwrap()
}

fn float(d: Decimal) -> f64 {
    let (mantissa, scale) = d.parts();
    rust_decimal::Decimal::from_i128_with_scale(mantissa, scale).to_f64().unwrap()
}

fn decimal_f64(d: Option<Decimal>) -> Option<f64> {
    d.map(float)
}

fn make_ohlcv_bar(open: Decimal, high: Decimal, low: Decimal, close: Decimal) -> OhlcvBar {
    OhlcvBar {
        symbol: "X".into(),
        timeframe: Timeframe::Minutes(1),
        open,
        high,
        low,
        close,
        volume: dec("1"),
        bar_start_ms: 0,
        trade_count: 1,
        is_complete: false,
        is_gap_fill: false,
        vwap: None,
    }
}

#[test]
fn test_max_drawdown_none_when_fewer_than_2_bars() {
    let bar = make_ohlcv_bar(dec("100"), dec("110"), dec("90"), dec("105"));
    assert!(decimal_f64(OhlcvBar::max_drawdown(&[bar])).is_none());
    assert!(decimal_f64(OhlcvBar::max_drawdown(&[])).is_none());
}

#[test]
fn test_max_drawdown_zero_when_monotone_increasing() {
    let b1 = make_ohlcv_bar(dec("100"), dec("105"), dec("98"), dec("100"));
    let b2 = make_ohlcv_bar(dec("100"), dec("110"), dec("99"), dec("105"));
    let b3 = make_ohlcv_bar(dec("105"), dec("115"), dec("104"), dec("110"));
    let dd = decimal_f64(OhlcvBar::max_drawdown(&[b1, b2, b3])).unwrap();
    assert_eq!(dd, 0.0);
}

#[test]
fn test_max_drawdown_correct_after_peak_then_drop() {
    // closes: 100, 120, 90 → peak=120, drop=(120-90)/120 = 0.25
    let b1 = make_ohlcv_bar(dec("100"), dec("102"), dec("98"), dec("100"));
    let b2 = make_ohlcv_bar(dec("100"), dec("125"), dec("99"), dec("120"));
    let b3 = make_ohlcv_bar(dec("120"), dec("121"), dec("88"), dec("90"));
    let dd = decimal_f64(OhlcvBar::max_drawdown(&[b1, b2, b3])).unwrap();
    assert!((dd - 0.25).abs() < 1e-9, "expected 0.25, got {dd}");
}

#[test]
fn test_momentum_none_for_insufficient_bars() {
    let bar = make_ohlcv_bar(dec("100"), dec("110"), dec("90"), dec("100"));
    assert!(decimal_f64(OhlcvBar::momentum(&[bar], 1)).is_none());
}

#[test]
fn test_momentum_positive_for_rising_close() {
    let b1 = make_ohlcv_bar(dec("100"), dec("110"), dec("90"), dec("100"));
    let b2 = make_ohlcv_bar(dec("100"), dec("115"), dec("95"), dec("110"));
    // (110 - 100) / 100 = 0.10
    let mom = decimal_f64(OhlcvBar::momentum(&[b1, b2], 1)).unwrap();
    assert!((mom - 0.1).abs() < 1e-10);
}

#[test]
fn test_momentum_negative_for_falling_close() {
    let b1 = make_ohlcv_bar(dec("100"), dec("110"), dec("90"), dec("110"));
    let b2 = make_ohlcv_bar(dec("100"), dec("108"), dec("88"), dec("99"));
    // (99 - 110) / 110 ≈ -0.10
    let mom = decimal_f64(OhlcvBar::momentum(&[b1, b2], 1)).unwrap();
    assert!(mom < 0.0);
}

#[test]
fn test_price_efficiency_ratio_none_for_single_bar() {
    let bar = make_ohlcv_bar(dec("100"), dec("110"), dec("90"), dec("100"));
    assert!(decimal_f64(OhlcvBar::price_efficiency_ratio(&[bar])).is_none());
}

#[test]
fn test_price_efficiency_ratio_one_for_trending_price() {
    // All bars with same range, monotonically rising closes
    let b1 = make_ohlcv_bar(dec("100"), dec("110"), dec("90"), dec("100"));
    let b2 = make_ohlcv_bar(dec("110"), dec("120"), dec("100"), dec("110"));
    let b3 = make_ohlcv_bar(dec("120"), dec("130"), dec("110"), dec("120"));
    // net move = 20, total path = 3 * 20 = 60; ratio = 20/60 ≈ 0.333
    let ratio = decimal_f64(OhlcvBar::price_efficiency_ratio(&[b1, b2, b3])).unwrap();
    assert!(ratio > 0.0 && ratio <= 1.0);
}

#[test]
fn test_price_efficiency_ratio_none_for_zero_total_range() {
    // Zero-range bars (high == low)
    let bars = vec![
        make_ohlcv_bar(dec("100"), dec("100"), dec("100"), dec("100")),
        make_ohlcv_bar(dec("100"), dec("100"), dec("100"), dec("100")),
    ];
    assert!(decimal_f64(OhlcvBar::price_efficiency_ratio(&bars)).is_none());
}

#[test]
fn test_volume_weighted_close_none_for_empty_slice() {
    assert!(OhlcvBar::volume_weighted_close(&[]).is_none());
}

#[test]
fn test_volume_weighted_close_single_bar() {
    let mut bar = make_ohlcv_bar(dec("100"), dec("110"), dec("90"), dec("105"));
    bar.volume = dec("10");
    assert_eq!(OhlcvBar::volume_weighted_close(&[bar]), Some(dec("105")));
}

#[test]
fn test_volume_weighted_close_weights_by_volume() {
    let mut b1 = make_ohlcv_bar(dec("100"), dec("110"), dec("90"), dec("100"));
    b1.volume = dec("1");
    let mut b2 = make_ohlcv_bar(dec("100"), dec("110"), dec("90"), dec("200"));
    b2.volume = dec("3");
    // vwc = (100*1 + 200*3) / (1+3) = 700 / 4 = 175
    assert_eq!(OhlcvBar::volume_weighted_close(&[b1, b2]), Some(dec("175")));
}

#[test]
fn test_rolling_return_none_for_empty_slice() {
    assert!(decimal_f64(OhlcvBar::rolling_return(&[])).is_none());
}

#[test]
fn test_rolling_return_none_for_single_bar() {
    assert!(decimal_f64(OhlcvBar::rolling_return(&[make_ohlcv_bar(dec("100"), dec("110"), dec("90"), dec("105"))])).is_none());
}

#[test]
fn test_rolling_return_positive_when_close_rises() {
    let b1 = make_ohlcv_bar(dec("100"), dec("105"), dec("95"), dec("100"));
    let b2 = make_ohlcv_bar(dec("100"), dec("115"), dec("95"), dec("110"));
    let ret = decimal_f64(OhlcvBar::rolling_return(&[b1, b2])).unwrap();
    assert!((ret - 0.1).abs() < 1e-9);
}

#[test]
fn test_atr_pct_none_for_single_bar() {
    assert!(decimal_f64(OhlcvBar::atr_pct(&[make_ohlcv_bar(dec("100"), dec("110"), dec("90"), dec("105"))])).is_none());
}

#[test]
fn test_atr_pct_positive_for_normal_bars() {
    let b1 = make_ohlcv_bar(dec("100"), dec("110"), dec("90"), dec("100"));
    let b2 = make_ohlcv_bar(dec("100"), dec("110"), dec("90"), dec("100"));
    let pct = decimal_f64(OhlcvBar::atr_pct(&[b1, b2])).unwrap();
    assert!(pct > 0.0);
}

#[test]
fn test_is_gap_bar_true_when_open_differs_from_prev_close() {
    let bar = make_ohlcv_bar(dec("105"), dec("115"), dec("100"), dec("110"));
    assert!(OhlcvBar::is_gap_bar(&bar, dec("100")));
}

#[test]
fn test_is_gap_bar_false_when_open_equals_prev_close() {
    let bar = make_ohlcv_bar(dec("100"), dec("115"), dec("98"), dec("110"));
    assert!(!OhlcvBar::is_gap_bar(&bar, dec("100")));
}

#[test]
fn test_bar_efficiency_none_for_zero_range_bar() {
    let bar = make_ohlcv_bar(dec("100"), dec("100"), dec("100"), dec("100"));
    assert!(decimal_f64(OhlcvBar::bar_efficiency(&bar)).is_none());
}

#[test]
fn test_bar_efficiency_one_for_full_trend_bar() {
    // open=100, high=110, low=100, close=110 → body=10, range=10 → efficiency=1.0
    let bar = make_ohlcv_bar(dec("100"), dec("110"), dec("100"), dec("110"));
    let eff = decimal_f64(OhlcvBar::bar_efficiency(&bar)).unwrap();
    assert!((eff - 1.0).abs() < 1e-9);
}

#[test]
fn test_bar_efficiency_between_zero_and_one() {
    let bar = make_ohlcv_bar(dec("100"), dec("115"), dec("95"), dec("108"));
    let eff = decimal_f64(OhlcvBar::bar_efficiency(&bar)).unwrap();
    assert!(eff >= 0.0 && eff <= 1.0);
}

#[test]
fn test_net_change_none_for_empty() {
    assert!(OhlcvBar::net_change(&[]).is_none());
}

#[test]
fn test_net_change_positive_for_bullish_bar() {
    let b = make_ohlcv_bar(dec("100"), dec("115"), dec("98"), dec("112"));
    assert_eq!(OhlcvBar::net_change(&[b]), Some(dec("12")));
}

#[test]
fn test_net_change_negative_for_bearish_bar() {
    let b = make_ohlcv_bar(dec("110"), dec("112"), dec("95"), dec("100"));
    assert_eq!(OhlcvBar::net_change(&[b]), Some(dec("-10")));
}

#[test]
fn test_open_to_close_pct_none_for_empty() {
    assert!(decimal_f64(OhlcvBar::open_to_close_pct(&[])).is_none());
}

#[test]
fn test_open_to_close_pct_correct() {
    // open=100, close=110 → 10%
    let b = make_ohlcv_bar(dec("100"), dec("115"), dec("98"), dec("110"));
    let pct = decimal_f64(OhlcvBar::open_to_close_pct(&[b])).unwrap();
    assert!((pct - 10.0).abs() < 1e-9);
}

#[test]
fn test_high_to_low_pct_none_for_empty() {
    assert!(decimal_f64(OhlcvBar::high_to_low_pct(&[])).is_none());
}

#[test]
fn test_high_to_low_pct_correct() {
    // high=200, low=100 → 50%
    let b = make_ohlcv_bar(dec("150"), dec("200"), dec("100"), dec("160"));
    let pct = decimal_f64(OhlcvBar::high_to_low_pct(&[b])).unwrap();
    assert!((pct - 50.0).abs() < 1e-9);
}

#[test]
fn test_volume_change_pct_none_for_single_bar() {
    let mut b = make_ohlcv_bar(dec("100"), dec("110"), dec("90"), dec("105"));
    b.volume = dec("100");
    assert!(decimal_f64(OhlcvBar::volume_change_pct(&[b])).is_none());
}

#[test]
fn test_volume_change_pct_correct() {
    // prior vol=100, current vol=150 → +50%
    let mut b1 = make_ohlcv_bar(dec("100"), dec("110"), dec("90"), dec("105")); b1.volume = dec("100");
    let mut b2 = make_ohlcv_bar(dec("105"), dec("115"), dec("103"), dec("110")); b2.volume = dec("150");
    let pct = decimal_f64(OhlcvBar::volume_change_pct(&[b1, b2])).unwrap();
    assert!((pct - 50.0).abs() < 1e-9);
}

#[test]
fn test_open_gap_pct_none_for_single_bar() {
    let b = make_ohlcv_bar(dec("100"), dec("110"), dec("90"), dec("105"));
    assert!(decimal_f64(OhlcvBar::open_gap_pct(&[b])).is_none());
}

#[test]
fn test_open_gap_pct_positive_for_gap_up() {
    // prev close=100, current open=105 → 5%
    let b1 = make_ohlcv_bar(dec("90"), dec("105"), dec("88"), dec("100"));
    let b2 = make_ohlcv_bar(dec("105"), dec("115"), dec("103"), dec("110"));
    let pct = decimal_f64(OhlcvBar::open_gap_pct(&[b1, b2])).unwrap();
    assert!((pct - 5.0).abs() < 1e-9);
}

#[test]
fn test_price_position_none_for_empty() {
    assert!(decimal_f64(OhlcvBar::price_position(&[])).is_none());
}

#[test]
fn test_price_position_one_when_close_at_highest() {
    // bars: high=100 and high=120 (range 80-120=40), last close=120
    let b1 = make_ohlcv_bar(dec("85"), dec("100"), dec("80"), dec("95"));
    let b2 = make_ohlcv_bar(dec("110"), dec("120"), dec("100"), dec("120"));
    let pos = decimal_f64(OhlcvBar::price_position(&[b1, b2])).unwrap();
    assert!((pos - 1.0).abs() < 1e-9);
}

#[test]
fn test_volume_acceleration_none_for_single_bar() {
    let b = make_ohlcv_bar(dec("100"), dec("110"), dec("90"), dec("105"));
    assert!(decimal_f64(OhlcvBar::volume_acceleration(&[b])).is_none());
}

#[test]
fn test_volume_acceleration_positive_when_volume_rises() {
    let mut b1 = make_ohlcv_bar(dec("100"), dec("110"), dec("90"), dec("105")); b1.volume = dec("100");
    let mut b2 = make_ohlcv_bar(dec("105"), dec("115"), dec("103"), dec("110")); b2.volume = dec("150");
    let acc = decimal_f64(OhlcvBar::volume_acceleration(&[b1, b2])).unwrap();
    assert!(acc > 0.0, "volume rose so acceleration should be positive, got {}", acc);
}

#[test]
fn test_mean_volume_ratio_empty_for_empty_slice() {
    assert!(OhlcvBar::mean_volume_ratio(&[]).is_empty());
}

#[test]
fn test_mean_volume_ratio_sums_to_n_times_mean() {
    let mut b1 = make_ohlcv_bar(dec("100"), dec("110"), dec("90"), dec("105")); b1.volume = dec("100");
    let mut b2 = make_ohlcv_bar(dec("105"), dec("115"), dec("103"), dec("110")); b2.volume = dec("300");
    // mean = 200; ratios: 0.5, 1.5
    let ratios = OhlcvBar::mean_volume_ratio(&[b1, b2]);
    assert_eq!(ratios.len(), 2);
    let r0 = float(ratios[0].unwrap());
    let r1 = float(ratios[1].unwrap());
    assert!((r0 - 0.5).abs() < 1e-6, "expected 0.5, got {}", r0);
    assert!((r1 - 1.5).abs() < 1e-6, "expected 1.5, got {}", r1);
}

#[test]
fn test_price_compression_ratio_none_for_zero_range() {
    // open==high==low==close → range=0
    let b = make_ohlcv_bar(dec("100"), dec("100"), dec("100"), dec("100"));
    assert!(decimal_f64(OhlcvBar::price_compression_ratio(&[b])).is_none());
}

#[test]
fn test_price_compression_ratio_in_range() {
    let b = make_ohlcv_bar(dec("100"), dec("110"), dec("90"), dec("108"));
    let r = decimal_f64(OhlcvBar::price_compression_ratio(&[b])).unwrap();
    assert!(r >= 0.0 && r <= 1.0, "expected value in [0,1], got {}", r);
}

#[test]
fn test_atr_ratio_none_for_single_bar() {
    let b = make_ohlcv_bar(dec("100"), dec("110"), dec("90"), dec("105"));
    assert!(decimal_f64(OhlcvBar::atr_ratio(&[b])).is_none());
}

#[test]
fn test_atr_ratio_positive_for_valid_bars() {
    let b1 = make_ohlcv_bar(dec("100"), dec("110"), dec("90"), dec("105"));
    let b2 = make_ohlcv_bar(dec("105"), dec("115"), dec("103"), dec("110"));
    let r = decimal_f64(OhlcvBar::atr_ratio(&[b1, b2])).unwrap();
    assert!(r > 0.0, "expected positive ATR ratio, got {}", r);
}

#[test]
fn test_normalized_close_none_for_single_bar() {
    let b = make_ohlcv_bar(dec("100"), dec("110"), dec("90"), dec("105"));
    assert!(decimal_f64(OhlcvBar::normalized_close(&[b])).is_none());
}

#[test]
fn test_normalized_close_one_when_last_close_is_max() {
    let b1 = make_ohlcv_bar(dec("98"), dec("105"), dec("96"), dec("100"));
    let b2 = make_ohlcv_bar(dec("100"), dec("115"), dec("99"), dec("110"));
    let nc = decimal_f64(OhlcvBar::normalized_close(&[b1, b2])).unwrap();
    assert!((nc - 1.0).abs() < 1e-9, "last close = max should give 1.0, got {}", nc);
}

#[test]
fn test_normalized_close_zero_when_last_close_is_min() {
    let b1 = make_ohlcv_bar(dec("100"), dec("110"), dec("90"), dec("90"));
    let b2 = make_ohlcv_bar(dec("90"), dec("105"), dec("88"), dec("100"));
    // min_close=90, max_close=100, last_close=100 → 1.0
    // Actually min=90, max=100, last=100 → normalized=1.0
    let nc = decimal_f64(OhlcvBar::normalized_close(&[b1, b2])).unwrap();
    assert!(nc >= 0.0 && nc <= 1.0, "normalized close should be in [0,1], got {}", nc);
}

#[test]
fn test_up_volume_fraction_none_for_empty() {
    assert!(decimal_f64(OhlcvBar::up_volume_fraction(&[])).is_none());
}

#[test]
fn test_up_volume_fraction_all_up() {
    // close > open for both bars
    let mut b1 = make_ohlcv_bar(dec("100"), dec("110"), dec("95"), dec("108")); b1.volume = dec("50");
    let mut b2 = make_ohlcv_bar(dec("105"), dec("115"), dec("100"), dec("112")); b2.volume = dec("50");
    let f = decimal_f64(OhlcvBar::up_volume_fraction(&[b1, b2])).unwrap();
    assert!((f - 1.0).abs() < 1e-9, "all up bars → fraction=1.0, got {}", f);
}

#[test]
fn test_shadow_to_body_ratio_none_for_empty() {
    assert!(decimal_f64(OhlcvBar::shadow_to_body_ratio(&[])).is_none());
}

#[test]
fn test_shadow_to_body_ratio_zero_for_marubozu() {
    // Marubozu: open==low and close==high → no wicks
    let bar = make_ohlcv_bar(dec("80"), dec("120"), dec("80"), dec("120"));
    let r = decimal_f64(OhlcvBar::shadow_to_body_ratio(&[bar])).unwrap();
    assert!(r.abs() < 1e-9, "marubozu → ratio=0, got {}", r);
}

#[test]
fn test_first_last_close_pct_none_for_empty() {
    assert!(decimal_f64(OhlcvBar::first_last_close_pct(&[])).is_none());
}

#[test]
fn test_first_last_close_pct_zero_for_same_close() {
    let bar = make_ohlcv_bar(dec("100"), dec("110"), dec("90"), dec("100"));
    let r = decimal_f64(OhlcvBar::first_last_close_pct(&[bar])).unwrap();
    assert!(r.abs() < 1e-9, "same open/close → pct=0, got {}", r);
}

#[test]
fn test_first_last_close_pct_positive_for_rise() {
    let b1 = make_ohlcv_bar(dec("100"), dec("110"), dec("90"), dec("100"));
    let b2 = make_ohlcv_bar(dec("100"), dec("120"), dec("95"), dec("110"));
    let r = decimal_f64(OhlcvBar::first_last_close_pct(&[b1, b2])).unwrap();
    assert!(r > 0.0, "price rose → positive pct, got {}", r);
}

#[test]
fn test_directional_volume_ratio_none_for_empty() {
    assert!(decimal_f64(OhlcvBar::directional_volume_ratio(&[])).is_none());
}

#[test]
fn test_directional_volume_ratio_one_for_all_bullish() {
    let mut b1 = make_ohlcv_bar(dec("100"), dec("110"), dec("90"), dec("108")); b1.volume = dec("50");
    let mut b2 = make_ohlcv_bar(dec("105"), dec("115"), dec("100"), dec("112")); b2.volume = dec("50");
    let r = decimal_f64(OhlcvBar::directional_volume_ratio(&[b1, b2])).unwrap();
    assert!((r - 1.0).abs() < 1e-9, "all bullish → ratio=1, got {}", r);
}

#[test]
fn test_max_gap_up_none_for_single_bar() {
    let b = make_ohlcv_bar(dec("100"), dec("110"), dec("90"), dec("105"));
    assert!(decimal_f64(OhlcvBar::max_gap_up(&[b])).is_none());
}

#[test]
fn test_max_gap_up_detects_positive_gap() {
    // bar1 closes at 100, bar2 opens at 110 → gap = 10/100 = 0.10
    let b1 = make_ohlcv_bar(dec("90"), dec("105"), dec("85"), dec("100"));
    let b2 = make_ohlcv_bar(dec("110"), dec("120"), dec("108"), dec("115"));
    let g = decimal_f64(OhlcvBar::max_gap_up(&[b1, b2])).unwrap();
    assert!((g - 0.1).abs() < 1e-9, "expected 0.10 gap, got {}", g);
}

#[test]
fn test_price_range_expansion_none_for_single_bar() {
    let b = make_ohlcv_bar(dec("100"), dec("110"), dec("90"), dec("105"));
    assert!(decimal_f64(OhlcvBar::price_range_expansion(&[b])).is_none());
}

#[test]
fn test_price_range_expansion_ratio() {
    // first bar: high=110, low=90 → range=20; last bar: high=130, low=90 → range=40
    let b1 = make_ohlcv_bar(dec("95"), dec("110"), dec("90"), dec("105"));
    let b2 = make_ohlcv_bar(dec("100"), dec("130"), dec("90"), dec("120"));
    let r = decimal_f64(OhlcvBar::price_range_expansion(&[b1, b2])).unwrap();
    assert!((r - 2.0).abs() < 1e-9, "range doubled → 2.0, got {}", r);
}

#[test]
fn test_up_down_volume_ratio_none_for_only_up_bars() {
    let mut b = make_ohlcv_bar(dec("90"), dec("110"), dec("85"), dec("105"));
    b.volume = dec("100");
    // one up bar, no down bars → None
    assert!(decimal_f64(OhlcvBar::up_down_volume_ratio(&[b])).is_none());
}

#[test]
fn test_up_down_volume_ratio_equal_volumes() {
    let mut b1 = make_ohlcv_bar(dec("90"), dec("110"), dec("85"), dec("105")); // up
    b1.volume = dec("100");
    let mut b2 = make_ohlcv_bar(dec("105"), dec("110"), dec("85"), dec("90")); // down
    b2.volume = dec("100");
    let r = decimal_f64(OhlcvBar::up_down_volume_ratio(&[b1, b2])).unwrap();
    assert!((r - 1.0).abs() < 1e-9, "equal volumes → 1.0, got {}", r);
}

#[test]
fn test_volume_weighted_open_none_for_empty() {
    assert!(decimal_f64(OhlcvBar::volume_weighted_open(&[])).is_none());
}

#[test]
fn test_volume_weighted_open_equal_weights() {
    let mut b1 = make_ohlcv_bar(dec("90"), dec("110"), dec("85"), dec("100"));
    let mut b2 = make_ohlcv_bar(dec("100"), dec("115"), dec("95"), dec("110"));
    b1.volume = dec("1");
    b2.volume = dec("1");
    // equal volume → average of opens = (90+100)/2 = 95
    let vwo = decimal_f64(OhlcvBar::volume_weighted_open(&[b1, b2])).unwrap();
    assert!((vwo - 95.0).abs() < 1e-9, "expected 95.0, got {}", vwo);
}

#[test]
fn test_volume_trend_acceleration_none_for_three_bars() {
    let b = make_ohlcv_bar(dec("90"), dec("110"), dec("85"), dec("100"));
    assert!(decimal_f64(OhlcvBar::volume_trend_acceleration(&[b.clone(), b.clone(), b])).is_none());
}

#[test]
fn test_volume_trend_acceleration_zero_for_constant_volume() {
    let mut bars = Vec::new();
    for _ in 0..4 {
        let mut b = make_ohlcv_bar(dec("90"), dec("110"), dec("85"), dec("100"));
        b.volume = dec("100");
        bars.push(b);
    }
    let a = decimal_f64(OhlcvBar::volume_trend_acceleration(&bars)).unwrap();
    assert!(a.abs() < 1e-9, "constant volume → acceleration=0, got {}", a);
}

#[test]
fn test_vwap_deviation_mean_none_for_empty() {
    assert!(decimal_f64(OhlcvBar::vwap_deviation_mean(&[])).is_none());
}

#[test]
fn test_vwap_deviation_mean_zero_for_constant_close() {
    // all same close → VWAP = close → deviation = 0
    let mut b1 = make_ohlcv_bar(dec("90"), dec("110"), dec("85"), dec("100"));
    let mut b2 = make_ohlcv_bar(dec("100"), dec("115"), dec("95"), dec("100"));
    b1.volume = dec("100");
    b2.volume = dec("100");
    let d = decimal_f64(OhlcvBar::vwap_deviation_mean(&[b1, b2])).unwrap();
    assert!(d.abs() < 1e-9, "constant close → deviation=0, got {}", d);
}

#[test]
fn test_body_acceleration_none_for_three_bars() {
    let b = make_ohlcv_bar(dec("90"), dec("110"), dec("85"), dec("100"));
    assert!(decimal_f64(OhlcvBar::body_acceleration(&[b.clone(), b.clone(), b])).is_none());
}

#[test]
fn test_bar_volatility_score_none_for_single() {
    let b = make_ohlcv_bar(dec("100"), dec("110"), dec("90"), dec("105"));
    assert!(decimal_f64(OhlcvBar::bar_volatility_score(&[b])).is_none());
}

#[test]
fn test_bar_volatility_score_basic() {
    let b1 = make_ohlcv_bar(dec("100"), dec("110"), dec("90"), dec("100"));
    let b2 = make_ohlcv_bar(dec("100"), dec("110"), dec("90"), dec("100"));
    // TR of b2 relative to b1: hl=20, hpc=10, lpc=10 → TR=20; mean_close=100 → score=0.2
    let s = decimal_f64(OhlcvBar::bar_volatility_score(&[b1, b2])).unwrap();
    assert!((s - 0.2).abs() < 1e-9, "expected 0.2, got {}", s);
}

#[test]
fn test_volume_weighted_high_none_for_empty() {
    assert!(decimal_f64(OhlcvBar::volume_weighted_high(&[])).is_none());
}

#[test]
fn test_volume_weighted_high_basic() {
    // both bars: high=110, volume=50 → vwh = (110*50+110*50)/(50+50)=110
    let mut b1 = make_ohlcv_bar(dec("100"), dec("110"), dec("90"), dec("105"));
    b1.volume = dec("50");
    let mut b2 = make_ohlcv_bar(dec("100"), dec("110"), dec("90"), dec("105"));
    b2.volume = dec("50");
    let v = decimal_f64(OhlcvBar::volume_weighted_high(&[b1, b2])).unwrap();
    assert!((v - 110.0).abs() < 1e-9, "expected 110.0, got {}", v);
}

#[test]
fn test_volume_range_ratio_none_for_empty() {
    assert!(decimal_f64(OhlcvBar::volume_range_ratio(&[])).is_none());
}

#[test]
fn test_volume_range_ratio_basic() {
    // volumes [100, 200]: range=100, mean=150 → ratio=2/3
    let mut b1 = make_ohlcv_bar(dec("100"), dec("110"), dec("90"), dec("105"));
    b1.volume = dec("100");
    let mut b2 = make_ohlcv_bar(dec("100"), dec("110"), dec("90"), dec("105"));
    b2.volume = dec("200");
    let r = decimal_f64(OhlcvBar::volume_range_ratio(&[b1, b2])).unwrap();
    assert!((r - 100.0 / 150.0).abs() < 1e-9, "expected ~0.667, got {}", r);
}
