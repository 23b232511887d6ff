use fin_stream::bar::OhlcvBar;
use fin_stream::decimal::Decimal;
use fin_stream::timeframe::Timeframe;
use rust_decimal::prelude::ToPrimitive;

/// The number that a literal writes.
fn dec(text: &str) -> Decimal {
    let d: rust_decimal::Decimal = text.parse().unwrap();
    Decimal::from_parts(d.mantissa(), d.scale()).unwrap()
}

fn float(d: Decimal) -> f64 {
    let (mantissa, scale) = d.parts();
    rust_decimal::Decimal::from_i128_with_scale(mantissa, scale).to_f64().unwrap()
}

fn decimal_f64(d: Option<Decimal>) -> Option<f64> {
    d.map(float)
}

fn make_ohlcv_bar(open: Decimal, high: Decimal, low: Decimal, close: Decimal) -> OhlcvBar {
    OhlcvBar {
        symbol: "X".into(),
        timeframe: Timeframe::Minutes(1),
        open,
        high,
        low,
        close,
        volume: dec("1"),
        bar_start_ms: 0,
        trade_count: 1,
        is_complete: false,
        is_gap_fill: false,
        vwap: None,
    }
}

#[test]
fn test_average_true_range_none_when_fewer_than_two_bars() {
    let bar = make_ohlcv_bar(dec("100"), dec("110"), dec("90"), dec("105"));
    assert!(OhlcvBar::average_true_range(&[bar]).is_none());
    assert!(OhlcvBar::average_true_range(&[]).is_none());
}

#[test]
fn test_average_true_range_two_bars_no_gap() {
    // bar1: high=110 low=90 close=100
    // bar2: high=115 low=95 close=110  tr = max(115-95, |115-100|, |95-100|) = max(20,15,5) = 20
    let bar1 = make_ohlcv_bar(dec("100"), dec("110"), dec("90"), dec("100"));
    let bar2 = make_ohlcv_bar(dec("105"), dec("115"), dec("95"), dec("110"));
    let atr = OhlcvBar::average_true_range(&[bar1, bar2]).unwrap();
    assert_eq!(atr, dec("20")); // only one TR value: bar2 vs bar1.close=100
}

#[test]
fn test_average_true_range_three_bars_mean() {
    // bar1: close=100
    // bar2: h=110 l=90 c=105; tr = max(20, |110-100|, |90-100|) = max(20,10,10) = 20
    // bar3: h=120 l=100 c=115; tr = max(20, |120-105|, |100-105|) = max(20,15,5) = 20
    let bar1 = make_ohlcv_bar(dec("100"), dec("110"), dec("90"), dec("100"));
    let bar2 = make_ohlcv_bar(dec("100"), dec("110"), dec("90"), dec("105"));
    let bar3 = make_ohlcv_bar(dec("110"), dec("120"), dec("100"), dec("115"));
    let atr = OhlcvBar::average_true_range(&[bar1, bar2, bar3]).unwrap();
    assert_eq!(atr, dec("20"));
}

#[test]
fn test_average_body_none_when_empty() {
    assert!(OhlcvBar::average_body(&[]).is_none());
}

#[test]
fn test_average_body_single_bar() {
    let bar = make_ohlcv_bar(dec("100"), dec("110"), dec("90"), dec("108"));
    // body = |108 - 100| = 8
    assert_eq!(OhlcvBar::average_body(&[bar]), Some(dec("8")));
}

#[test]
fn test_average_body_multiple_bars() {
    let b1 = make_ohlcv_bar(dec("100"), dec("110"), dec("90"), dec("110")); // body=10
    let b2 = make_ohlcv_bar(dec("110"), dec("120"), dec("100"), dec("100")); // body=10
    let b3 = make_ohlcv_bar(dec("100"), dec("110"), dec("90"), dec("120")); // body=20
    let avg = OhlcvBar::average_body(&[b1, b2, b3]).unwrap();
    // (10 + 10 + 20) / 3 = 40/3
    assert_eq!(avg, dec("40") / dec("3"));
}

#[test]
fn test_mean_volume_none_when_empty() {
    assert!(OhlcvBar::mean_volume(&[]).is_none());
}

#[test]
fn test_mean_volume_single_bar() {
    let mut bar = make_ohlcv_bar(dec("100"), dec("110"), dec("90"), dec("100"));
    bar.volume = dec("200");
    assert_eq!(OhlcvBar::mean_volume(&[bar]), Some(dec("200")));
}

#[test]
fn test_mean_volume_multiple_bars() {
    let mut b1 = make_ohlcv_bar(dec("100"), dec("110"), dec("90"), dec("100"));
    b1.volume = dec("100");
    let mut b2 = make_ohlcv_bar(dec("100"), dec("110"), dec("90"), dec("100"));
    b2.volume = dec("200");
    let mut b3 = make_ohlcv_bar(dec("100"), dec("110"), dec("90"), dec("100"));
    b3.volume = dec("300");
    assert_eq!(OhlcvBar::mean_volume(&[b1, b2, b3]), Some(dec("200")));
}

#[test]
fn test_mean_close_none_for_empty_slice() {
    assert!(OhlcvBar::mean_close(&[]).is_none());
}

#[test]
fn test_mean_close_single_bar() {
    let bar = make_ohlcv_bar(dec("100"), dec("110"), dec("90"), dec("105"));
    assert_eq!(OhlcvBar::mean_close(&[bar]), Some(dec("105")));
}

#[test]
fn test_mean_close_multiple_bars() {
    let b1 = make_ohlcv_bar(dec("100"), dec("110"), dec("90"), dec("100"));
    let b2 = make_ohlcv_bar(dec("100"), dec("110"), dec("90"), dec("110"));
    let b3 = make_ohlcv_bar(dec("100"), dec("110"), dec("90"), dec("120"));
    // (100 + 110 + 120) / 3 = 110
    assert_eq!(OhlcvBar::mean_close(&[b1, b2, b3]), Some(dec("110")));
}

#[test]
fn test_mean_range_none_for_empty_slice() {
    assert!(OhlcvBar::mean_range(&[]).is_none());
}

#[test]
fn test_mean_range_single_bar() {
    let bar = make_ohlcv_bar(dec("100"), dec("110"), dec("90"), dec("105"));
    assert_eq!(OhlcvBar::mean_range(&[bar]), Some(dec("20")));
}

#[test]
fn test_mean_range_multiple_bars() {
    let b1 = make_ohlcv_bar(dec("100"), dec("110"), dec("90"), dec("105")); // range 20
    let b2 = make_ohlcv_bar(dec("100"), dec("120"), dec("80"), dec("100")); // range 40
    assert_eq!(OhlcvBar::mean_range(&[b1, b2]), Some(dec("30")));
}

#[test]
fn test_average_high_none_for_empty_slice() {
    assert!(OhlcvBar::average_high(&[]).is_none());
}

#[test]
fn test_average_high_single_bar() {
    let bar = make_ohlcv_bar(dec("100"), dec("120"), dec("90"), dec("105"));
    assert_eq!(OhlcvBar::average_high(&[bar]), Some(dec("120")));
}

#[test]
fn test_average_high_multiple_bars() {
    let b1 = make_ohlcv_bar(dec("100"), dec("110"), dec("90"), dec("105"));
    let b2 = make_ohlcv_bar(dec("100"), dec("130"), dec("90"), dec("105"));
    assert_eq!(OhlcvBar::average_high(&[b1, b2]), Some(dec("120")));
}

#[test]
fn test_average_low_none_for_empty_slice() {
    assert!(OhlcvBar::average_low(&[]).is_none());
}

#[test]
fn test_average_low_single_bar() {
    let bar = make_ohlcv_bar(dec("100"), dec("120"), dec("80"), dec("105"));
    assert_eq!(OhlcvBar::average_low(&[bar]), Some(dec("80")));
}

#[test]
fn test_average_low_multiple_bars() {
    let b1 = make_ohlcv_bar(dec("100"), dec("110"), dec("80"), dec("105"));
    let b2 = make_ohlcv_bar(dec("100"), dec("130"), dec("60"), dec("105"));
    assert_eq!(OhlcvBar::average_low(&[b1, b2]), Some(dec("70")));
}

#[test]
fn test_sma_none_for_zero_period() {
    let bar = make_ohlcv_bar(dec("100"), dec("110"), dec("90"), dec("105"));
    assert!(OhlcvBar::sma(&[bar], 0).is_none());
}

#[test]
fn test_sma_none_when_fewer_bars_than_period() {
    let bar = make_ohlcv_bar(dec("100"), dec("110"), dec("90"), dec("105"));
    assert!(OhlcvBar::sma(&[bar], 3).is_none());
}

#[test]
fn test_sma_correct_for_last_n_bars() {
    let bars = vec![
        make_ohlcv_bar(dec("100"), dec("110"), dec("90"), dec("100")),
        make_ohlcv_bar(dec("100"), dec("110"), dec("90"), dec("110")),
        make_ohlcv_bar(dec("100"), dec("110"), dec("90"), dec("120")),
    ];
    // sma(3) = (100 + 110 + 120) / 3 = 110
    assert_eq!(OhlcvBar::sma(&bars, 3), Some(dec("110")));
}

#[test]
fn test_bullish_volume_zero_for_empty_slice() {
    assert_eq!(OhlcvBar::bullish_volume(&[]), dec("0"));
}

#[test]
fn test_bullish_volume_sums_bullish_bars() {
    let mut bull = make_ohlcv_bar(dec("90"), dec("110"), dec("85"), dec("105"));
    bull.volume = dec("100");
    let mut bear = make_ohlcv_bar(dec("110"), dec("115"), dec("85"), dec("95"));
    bear.volume = dec("50");
    assert_eq!(OhlcvBar::bullish_volume(&[bull, bear]), dec("100"));
}

#[test]
fn test_bearish_volume_zero_for_empty_slice() {
    assert_eq!(OhlcvBar::bearish_volume(&[]), dec("0"));
}

#[test]
fn test_bearish_volume_sums_bearish_bars() {
    let mut bull = make_ohlcv_bar(dec("90"), dec("110"), dec("85"), dec("105"));
    bull.volume = dec("100");
    let mut bear = make_ohlcv_bar(dec("110"), dec("115"), dec("85"), dec("95"));
    bear.volume = dec("50");
    assert_eq!(OhlcvBar::bearish_volume(&[bull, bear]), dec("50"));
}

#[test]
fn test_gap_sum_zero_for_empty_slice() {
    assert_eq!(OhlcvBar::gap_sum(&[]), dec("0"));
}

#[test]
fn test_gap_sum_zero_for_single_bar() {
    assert_eq!(OhlcvBar::gap_sum(&[make_ohlcv_bar(dec("100"), dec("110"), dec("90"), dec("105"))]), dec("0"));
}

#[test]
fn test_gap_sum_positive_for_gap_up_sequence() {
    // b1 close=100, b2 open=110 → gap = +10
    let b1 = make_ohlcv_bar(dec("100"), dec("110"), dec("90"), dec("100"));
    let b2 = make_ohlcv_bar(dec("110"), dec("120"), dec("105"), dec("115"));
    assert_eq!(OhlcvBar::gap_sum(&[b1, b2]), dec("10"));
}

#[test]
fn test_gap_sum_negative_for_gap_down_sequence() {
    // b1 close=100, b2 open=90 → gap = -10
    let b1 = make_ohlcv_bar(dec("100"), dec("110"), dec("90"), dec("100"));
    let b2 = make_ohlcv_bar(dec("90"), dec("95"), dec("80"), dec("85"));
    assert_eq!(OhlcvBar::gap_sum(&[b1, b2]), dec("-10"));
}

#[test]
fn test_wicks_sum_zero_for_empty_slice() {
    assert_eq!(OhlcvBar::wicks_sum(&[]), dec("0"));
}

#[test]
fn test_wicks_sum_correct_for_doji_like_bar() {
    // open=close=100, high=110, low=90 → upper=10, lower=10, total=20
    let bar = make_ohlcv_bar(dec("100"), dec("110"), dec("90"), dec("100"));
    assert_eq!(OhlcvBar::wicks_sum(&[bar]), dec("20"));
}

#[test]
fn test_avg_close_to_high_none_for_empty_slice() {
    assert!(decimal_f64(OhlcvBar::avg_close_to_high(&[])).is_none());
}

#[test]
fn test_avg_close_to_high_correct_for_two_bars() {
    // b1: high=110, close=105 → 5; b2: high=120, close=115 → 5; avg=5.0
    let b1 = make_ohlcv_bar(dec("100"), dec("110"), dec("95"), dec("105"));
    let b2 = make_ohlcv_bar(dec("110"), dec("120"), dec("108"), dec("115"));
    let avg = decimal_f64(OhlcvBar::avg_close_to_high(&[b1, b2])).unwrap();
    assert!((avg - 5.0).abs() < 1e-9);
}

#[test]
fn test_avg_range_r65_none_for_empty() {
    assert!(decimal_f64(OhlcvBar::avg_range(&[])).is_none());
}

#[test]
fn test_avg_range_r65_correct() {
    let b1 = make_ohlcv_bar(dec("100"), dec("110"), dec("90"), dec("105"));
    let b2 = make_ohlcv_bar(dec("105"), dec("120"), dec("100"), dec("115"));
    let avg = decimal_f64(OhlcvBar::avg_range(&[b1, b2])).unwrap();
    assert!((avg - 20.0).abs() < 1e-9);
}

#[test]
fn test_volume_cumulative_zero_for_empty() {
    assert_eq!(OhlcvBar::volume_cumulative(&[]), dec("0"));
}

#[test]
fn test_volume_cumulative_sums_all_volumes() {
    let mut b1 = make_ohlcv_bar(dec("100"), dec("110"), dec("90"), dec("105")); b1.volume = dec("100");
    let mut b2 = make_ohlcv_bar(dec("105"), dec("115"), dec("103"), dec("110")); b2.volume = dec("200");
    assert_eq!(OhlcvBar::volume_cumulative(&[b1, b2]), dec("300"));
}

#[test]
fn test_mean_typical_price_none_for_empty() {
    assert!(OhlcvBar::mean_typical_price(&[]).is_none());
}

#[test]
fn test_mean_typical_price_correct() {
    // typical = (110 + 90 + 105) / 3 = 101.666...
    let b = make_ohlcv_bar(dec("100"), dec("110"), dec("90"), dec("105"));
    let expected = b.typical_price();
    let b2 = make_ohlcv_bar(dec("100"), dec("110"), dec("90"), dec("105"));
    let tp = OhlcvBar::mean_typical_price(&[b2]).unwrap();
    assert_eq!(tp, expected);
}

#[test]
fn test_body_momentum_empty_is_zero() {
    assert_eq!(OhlcvBar::body_momentum(&[]), Decimal::zero());
}

#[test]
fn test_body_momentum_bullish_positive() {
    let b = make_ohlcv_bar(dec("100"), dec("110"), dec("90"), dec("108"));
    let m = OhlcvBar::body_momentum(&[b]);
    assert!(m > Decimal::zero(), "bullish bar → positive body momentum");
}

#[test]
fn test_avg_bar_range_none_for_empty() {
    assert!(OhlcvBar::avg_bar_range(&[]).is_none());
}

#[test]
fn test_avg_bar_range_correct_value() {
    let b1 = make_ohlcv_bar(dec("100"), dec("110"), dec("90"), dec("105")); // range=20
    let b2 = make_ohlcv_bar(dec("100"), dec("115"), dec("95"), dec("105")); // range=20
    let r = OhlcvBar::avg_bar_range(&[b1, b2]).unwrap();
    assert_eq!(r, dec("20"));
}

#[test]
fn test_close_sum_zero_for_empty() {
    assert_eq!(OhlcvBar::close_sum(&[]), dec("0"));
}

#[test]
fn test_close_sum_sums_all_closes() {
    let b1 = make_ohlcv_bar(dec("100"), dec("110"), dec("90"), dec("105"));
    let b2 = make_ohlcv_bar(dec("100"), dec("110"), dec("90"), dec("107"));
    assert_eq!(OhlcvBar::close_sum(&[b1, b2]), dec("212"));
}

#[test]
fn test_typical_price_sum_zero_for_empty() {
    assert_eq!(OhlcvBar::typical_price_sum(&[]), dec("0"));
}

#[test]
fn test_typical_price_sum_correct_value() {
    let b = make_ohlcv_bar(dec("100"), dec("120"), dec("80"), dec("100"));
    // typical = (120+80+100)/3 = 300/3 = 100
    assert_eq!(OhlcvBar::typical_price_sum(&[b]), dec("100"));
}

#[test]
fn test_total_range_zero_for_empty() {
    assert_eq!(OhlcvBar::total_range(&[]), dec("0"));
}

#[test]
fn test_total_range_sum_of_ranges() {
    let b1 = make_ohlcv_bar(dec("100"), dec("110"), dec("90"), dec("105")); // range=20
    let b2 = make_ohlcv_bar(dec("100"), dec("115"), dec("95"), dec("110")); // range=20
    assert_eq!(OhlcvBar::total_range(&[b1, b2]), dec("40"));
}

#[test]
fn test_down_close_volume_zero_for_all_up_close() {
    let b = make_ohlcv_bar(dec("100"), dec("110"), dec("90"), dec("105")); // close > open
    assert_eq!(OhlcvBar::down_close_volume(&[b]), dec("0"));
}

#[test]
fn test_up_close_volume_zero_for_all_down_close() {
    let b = make_ohlcv_bar(dec("105"), dec("110"), dec("90"), dec("100")); // close < open
    assert_eq!(OhlcvBar::up_close_volume(&[b]), dec("0"));
}

#[test]
fn test_mean_open_none_for_empty() {
    assert!(OhlcvBar::mean_open(&[]).is_none());
}

#[test]
fn test_mean_open_correct() {
    let b1 = make_ohlcv_bar(dec("100"), dec("110"), dec("90"), dec("105"));
    let b2 = make_ohlcv_bar(dec("200"), dec("210"), dec("190"), dec("205"));
    assert_eq!(OhlcvBar::mean_open(&[b1, b2]).unwrap(), dec("150"));
}

#[test]
fn test_avg_open_to_close_none_for_empty() {
    assert!(OhlcvBar::avg_open_to_close(&[]).is_none());
}

#[test]
fn test_avg_open_to_close_positive_when_all_bullish() {
    let b = make_ohlcv_bar(dec("100"), dec("110"), dec("90"), dec("105")); // close > open
    let r = OhlcvBar::avg_open_to_close(&[b]).unwrap();
    assert!(r > dec("0"), "bullish bar → avg_open_to_close > 0, got {:?}", r);
}

#[test]
fn test_avg_open_to_close_zero_for_doji() {
    let b = make_ohlcv_bar(dec("100"), dec("110"), dec("90"), dec("100")); // close == open
    let r = OhlcvBar::avg_open_to_close(&[b]).unwrap();
    assert_eq!(r, dec("0"));
}

#[test]
fn test_mean_vwap_none_for_bars_without_vwap() {
    let b = make_ohlcv_bar(dec("100"), dec("110"), dec("90"), dec("105"));
    assert!(OhlcvBar::mean_vwap(&[b]).is_none());
}

#[test]
fn test_total_body_movement_zero_for_empty() {
    assert_eq!(OhlcvBar::total_body_movement(&[]), Decimal::zero());
}

#[test]
fn test_total_body_movement_correct() {
    let b1 = make_ohlcv_bar(dec("100"), dec("110"), dec("90"), dec("105")); // body = 5
    let b2 = make_ohlcv_bar(dec("110"), dec("120"), dec("100"), dec("100")); // body = 10
    assert_eq!(OhlcvBar::total_body_movement(&[b1, b2]), dec("15"));
}

#[test]
fn test_high_minus_open_mean_none_for_empty() {
    assert!(decimal_f64(OhlcvBar::high_minus_open_mean(&[])).is_none());
}

#[test]
fn test_high_minus_open_mean_basic() {
    // open=100, high=115 → diff=15
    let b = make_ohlcv_bar(dec("100"), dec("115"), dec("90"), dec("110"));
    let m = decimal_f64(OhlcvBar::high_minus_open_mean(&[b])).unwrap();
    assert!((m - 15.0).abs() < 1e-9, "expected 15.0, got {}", m);
}

#[test]
fn test_low_minus_close_mean_none_for_empty() {
    assert!(decimal_f64(OhlcvBar::low_minus_close_mean(&[])).is_none());
}

#[test]
fn test_low_minus_close_mean_basic() {
    // open=100, close=105, low=90 → lower wick = min(100,105)-90 = 100-90 = 10
    let b = make_ohlcv_bar(dec("100"), dec("115"), dec("90"), dec("105"));
    let m = decimal_f64(OhlcvBar::low_minus_close_mean(&[b])).unwrap();
    assert!((m - 10.0).abs() < 1e-9, "expected 10.0, got {}", m);
}

#[test]
fn test_avg_shadow_total_none_for_empty() {
    assert!(decimal_f64(OhlcvBar::avg_shadow_total(&[])).is_none());
}

#[test]
fn test_avg_shadow_total_basic() {
    // high=110, low=90, open=100, close=105 → range=20, body=5, shadow=15
    let b = make_ohlcv_bar(dec("100"), dec("110"), dec("90"), dec("105"));
    let s = decimal_f64(OhlcvBar::avg_shadow_total(&[b])).unwrap();
    assert!((s - 15.0).abs() < 1e-9, "expected 15.0, got {}", s);
}

#[test]
fn test_open_close_range_none_for_empty() {
    assert!(decimal_f64(OhlcvBar::open_close_range(&[])).is_none());
}

#[test]
fn test_open_close_range_basic() {
    // open=100, close=110 → body=10
    let b = make_ohlcv_bar(dec("100"), dec("115"), dec("90"), dec("110"));
    let r = decimal_f64(OhlcvBar::open_close_range(&[b])).unwrap();
    assert!((r - 10.0).abs() < 1e-9, "expected 10.0, got {}", r);
}

#[test]
fn test_volume_per_bar_none_for_empty() {
    assert!(decimal_f64(OhlcvBar::volume_per_bar(&[])).is_none());
}

#[test]
fn test_volume_per_bar_basic() {
    let mut b1 = make_ohlcv_bar(dec("100"), dec("110"), dec("90"), dec("105"));
    b1.volume = dec("100");
    let mut b2 = make_ohlcv_bar(dec("100"), dec("110"), dec("90"), dec("105"));
    b2.volume = dec("200");
    let v = decimal_f64(OhlcvBar::volume_per_bar(&[b1, b2])).unwrap();
    assert!((v - 150.0).abs() < 1e-9, "expected 150.0, got {}", v);
}
