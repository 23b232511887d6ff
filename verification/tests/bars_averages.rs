use fin_stream::bar::OhlcvBar;
use fin_stream::decimal::Decimal;
use fin_stream::scientific::Scientific;
use fin_stream::timeframe::Timeframe;
use rust_decimal::prelude::ToPrimitive;

/// The number that a literal writes.
fn dec(text: &str) -> Decimal {
    let d: rust_decimal::Decimal = text.parse().unwrap();
    Decimal::from_parts(d.mantissa(), d.scale()).unwrap()
}

fn float(d: Decimal) -> f64 {
    let (mantissa, scale) = d.parts();
    rust_decimal::Decimal::from_i128_with_scale(mantissa, scale).to_f64().unwrap()
}

fn decimal_f64(d: Option<Decimal>) -> Option<f64> {
    d.map(float)
}

fn scientific_f64(x: Option<Scientific>) -> Option<f64> {
    x.map(|x| {
        let sign = if x.negative { "-" } else { "" };
        format!("{sign}{}e{}", x.mantissa, x.exponent).parse().unwrap()
    })
}

fn make_ohlcv_bar(open: Decimal, high: Decimal, low: Decimal, close: Decimal) -> OhlcvBar {
    OhlcvBar {
        symbol: "X".into(),
        timeframe: Timeframe::Minutes(1),
        open,
        high,
        low,
        close,
        volume: dec("1"),
        bar_start_ms: 0,
        trade_count: 1,
        is_complete: false,
        is_gap_fill: false,
        vwap: None,
    }
}

#[test]
fn test_mean_wick_ratio_none_for_empty_slice() {
    assert!(decimal_f64(OhlcvBar::mean_wick_ratio(&[])).is_none());
}

#[test]
fn test_mean_wick_ratio_in_range_zero_to_one() {
    let b1 = make_ohlcv_bar(dec("100"), dec("110"), dec("90"), dec("105"));
    let b2 = make_ohlcv_bar(dec("100"), dec("115"), dec("85"), dec("100"));
    let ratio = decimal_f64(OhlcvBar::mean_wick_ratio(&[b1, b2])).unwrap();
    assert!(ratio >= 0.0 && ratio <= 1.0);
}

#[test]
fn test_mean_body_ratio_none_for_empty_slice() {
    assert!(decimal_f64(OhlcvBar::mean_body_ratio(&[])).is_none());
}

#[test]
fn test_mean_body_ratio_in_range_zero_to_one() {
    let b1 = make_ohlcv_bar(dec("100"), dec("120"), dec("80"), dec("110"));
    let b2 = make_ohlcv_bar(dec("100"), dec("120"), dec("80"), dec("100"));
    let ratio = decimal_f64(OhlcvBar::mean_body_ratio(&[b1, b2])).unwrap();
    assert!(ratio >= 0.0 && ratio <= 1.0);
}

#[test]
fn test_wick_body_ratio_none_for_empty() {
    assert!(decimal_f64(OhlcvBar::wick_body_ratio(&[])).is_none());
}

#[test]
fn test_wick_body_ratio_none_for_doji_bar() {
    // open == close → zero body, should be skipped
    let b = make_ohlcv_bar(dec("100"), dec("110"), dec("90"), dec("100"));
    assert!(decimal_f64(OhlcvBar::wick_body_ratio(&[b])).is_none());
}

#[test]
fn test_wick_body_ratio_positive_for_wicked_bar() {
    // open=100, close=105 → body=5; high=115, low=95 → wicks=10+5=15
    let b = make_ohlcv_bar(dec("100"), dec("115"), dec("95"), dec("105"));
    let r = decimal_f64(OhlcvBar::wick_body_ratio(&[b])).unwrap();
    assert!(r > 0.0, "expected positive wick/body ratio, got {}", r);
}

#[test]
fn test_avg_wick_size_none_for_empty() {
    assert!(decimal_f64(OhlcvBar::avg_wick_size(&[])).is_none());
}

#[test]
fn test_avg_wick_size_correct() {
    // open=100, close=105, high=115, low=95
    // upper wick = 115 - 105 = 10, lower wick = 100 - 95 = 5, total = 15
    let b = make_ohlcv_bar(dec("100"), dec("115"), dec("95"), dec("105"));
    let ws = decimal_f64(OhlcvBar::avg_wick_size(&[b])).unwrap();
    assert!((ws - 15.0).abs() < 1e-6, "expected 15.0, got {}", ws);
}

#[test]
fn test_open_close_spread_none_for_empty() {
    assert!(decimal_f64(OhlcvBar::open_close_spread(&[])).is_none());
}

#[test]
fn test_open_close_spread_zero_for_doji() {
    let b = make_ohlcv_bar(dec("100"), dec("110"), dec("90"), dec("100"));
    let s = decimal_f64(OhlcvBar::open_close_spread(&[b])).unwrap();
    assert!((s - 0.0).abs() < 1e-9, "doji should have spread=0, got {}", s);
}

#[test]
fn test_open_close_spread_positive_for_directional_bar() {
    let b = make_ohlcv_bar(dec("100"), dec("115"), dec("98"), dec("110"));
    let s = decimal_f64(OhlcvBar::open_close_spread(&[b])).unwrap();
    assert!(s > 0.0, "directional bar should have positive spread, got {}", s);
}

#[test]
fn test_high_close_spread_none_for_empty() {
    assert!(decimal_f64(OhlcvBar::high_close_spread(&[])).is_none());
}

#[test]
fn test_high_close_spread_zero_when_close_equals_high() {
    // open=100, high=110, low=90, close=110 → upper wick=0
    let b = make_ohlcv_bar(dec("100"), dec("110"), dec("90"), dec("110"));
    let s = decimal_f64(OhlcvBar::high_close_spread(&[b])).unwrap();
    assert!((s - 0.0).abs() < 1e-9, "expected 0.0, got {}", s);
}

#[test]
fn test_high_close_spread_positive_for_wicked_bar() {
    let b = make_ohlcv_bar(dec("100"), dec("115"), dec("95"), dec("105"));
    let s = decimal_f64(OhlcvBar::high_close_spread(&[b])).unwrap();
    assert!(s > 0.0, "expected positive spread, got {}", s);
}

#[test]
fn test_open_range_none_for_empty() {
    assert!(decimal_f64(OhlcvBar::open_range(&[])).is_none());
}

#[test]
fn test_open_range_zero_for_doji() {
    let b = make_ohlcv_bar(dec("100"), dec("110"), dec("90"), dec("100"));
    let r = decimal_f64(OhlcvBar::open_range(&[b])).unwrap();
    assert!((r - 0.0).abs() < 1e-9, "doji should have open_range=0, got {}", r);
}

#[test]
fn test_open_range_positive_for_directional() {
    let b = make_ohlcv_bar(dec("100"), dec("115"), dec("98"), dec("110"));
    let r = decimal_f64(OhlcvBar::open_range(&[b])).unwrap();
    assert!(r > 0.0, "directional bar should have positive open_range, got {}", r);
}

#[test]
fn test_close_minus_open_pct_none_for_empty() {
    assert!(decimal_f64(OhlcvBar::close_minus_open_pct(&[])).is_none());
}

#[test]
fn test_close_minus_open_pct_positive_for_bull_bar() {
    let b = make_ohlcv_bar(dec("100"), dec("110"), dec("98"), dec("110"));
    let p = decimal_f64(OhlcvBar::close_minus_open_pct(&[b])).unwrap();
    assert!(p > 0.0, "bullish bar should give positive pct, got {}", p);
}

#[test]
fn test_volume_per_range_none_for_empty() {
    assert!(decimal_f64(OhlcvBar::volume_per_range(&[])).is_none());
}

#[test]
fn test_volume_per_range_positive_for_valid_bar() {
    let mut b = make_ohlcv_bar(dec("100"), dec("110"), dec("90"), dec("105")); b.volume = dec("100");
    let r = decimal_f64(OhlcvBar::volume_per_range(&[b])).unwrap();
    assert!(r > 0.0, "expected positive volume/range, got {}", r);
}

#[test]
fn test_tail_upper_fraction_none_for_empty() {
    assert!(decimal_f64(OhlcvBar::tail_upper_fraction(&[])).is_none());
}

#[test]
fn test_tail_upper_fraction_correct() {
    // bar: open=100, high=110, low=90, close=105 → body_top=105, upper_wick=5, range=20 → 0.25
    let b = make_ohlcv_bar(dec("100"), dec("110"), dec("90"), dec("105"));
    let f = decimal_f64(OhlcvBar::tail_upper_fraction(&[b])).unwrap();
    assert!((f - 0.25).abs() < 1e-9, "expected 0.25, got {}", f);
}

#[test]
fn test_tail_lower_fraction_none_for_empty() {
    assert!(decimal_f64(OhlcvBar::tail_lower_fraction(&[])).is_none());
}

#[test]
fn test_tail_lower_fraction_correct() {
    // bar: open=100, high=110, low=90, close=105 → body_bot=100, lower_wick=10, range=20 → 0.5
    let b = make_ohlcv_bar(dec("100"), dec("110"), dec("90"), dec("105"));
    let f = decimal_f64(OhlcvBar::tail_lower_fraction(&[b])).unwrap();
    assert!((f - 0.5).abs() < 1e-9, "expected 0.5, got {}", f);
}

#[test]
fn test_body_fraction_none_for_empty() {
    assert!(decimal_f64(OhlcvBar::body_fraction(&[])).is_none());
}

#[test]
fn test_body_fraction_doji_is_zero() {
    // open == close → body = 0 → fraction = 0
    let b = make_ohlcv_bar(dec("100"), dec("110"), dec("90"), dec("100"));
    let f = decimal_f64(OhlcvBar::body_fraction(&[b])).unwrap();
    assert!(f.abs() < 1e-9, "doji → body_fraction=0, got {}", f);
}

#[test]
fn test_close_to_range_position_none_for_empty() {
    assert!(decimal_f64(OhlcvBar::close_to_range_position(&[])).is_none());
}

#[test]
fn test_close_to_range_position_one_when_close_at_high() {
    let bar = make_ohlcv_bar(dec("100"), dec("120"), dec("80"), dec("120"));
    let r = decimal_f64(OhlcvBar::close_to_range_position(&[bar])).unwrap();
    assert!((r - 1.0).abs() < 1e-9, "close at high → position=1, got {}", r);
}

#[test]
fn test_close_to_range_position_zero_when_close_at_low() {
    let bar = make_ohlcv_bar(dec("100"), dec("120"), dec("80"), dec("80"));
    let r = decimal_f64(OhlcvBar::close_to_range_position(&[bar])).unwrap();
    assert!(r.abs() < 1e-9, "close at low → position=0, got {}", r);
}

#[test]
fn test_avg_open_to_high_ratio_none_for_empty() {
    assert!(decimal_f64(OhlcvBar::avg_open_to_high_ratio(&[])).is_none());
}

#[test]
fn test_avg_open_to_high_ratio_one_when_open_at_low() {
    // open == low → (high - open) / range == 1
    let bar = make_ohlcv_bar(dec("80"), dec("120"), dec("80"), dec("100"));
    let r = decimal_f64(OhlcvBar::avg_open_to_high_ratio(&[bar])).unwrap();
    assert!((r - 1.0).abs() < 1e-9, "open at low → ratio=1, got {}", r);
}

#[test]
fn test_bar_strength_index_none_for_empty() {
    assert!(decimal_f64(OhlcvBar::bar_strength_index(&[])).is_none());
}

#[test]
fn test_bar_strength_index_positive_when_closes_near_high() {
    let bar = make_ohlcv_bar(dec("100"), dec("120"), dec("80"), dec("120"));
    let s = decimal_f64(OhlcvBar::bar_strength_index(&[bar])).unwrap();
    assert!(s > 0.0, "close at high → positive strength, got {}", s);
}

#[test]
fn test_close_recovery_ratio_none_for_empty() {
    assert!(decimal_f64(OhlcvBar::close_recovery_ratio(&[])).is_none());
}

#[test]
fn test_close_recovery_ratio_one_for_close_at_high() {
    // close == high → ratio = 1.0
    let b = make_ohlcv_bar(dec("100"), dec("110"), dec("90"), dec("110"));
    let r = decimal_f64(OhlcvBar::close_recovery_ratio(&[b])).unwrap();
    assert!((r - 1.0).abs() < 1e-9, "close at high → ratio=1, got {}", r);
}

#[test]
fn test_avg_open_volume_ratio_none_for_empty() {
    assert!(decimal_f64(OhlcvBar::avg_open_volume_ratio(&[])).is_none());
}

#[test]
fn test_avg_high_low_ratio_none_for_empty() {
    assert!(decimal_f64(OhlcvBar::avg_high_low_ratio(&[])).is_none());
}

#[test]
fn test_avg_high_low_ratio_one_for_doji() {
    // high == low (doji) → ratio = 1.0 but low=0 is skipped... use low=100
    let b = make_ohlcv_bar(dec("100"), dec("100"), dec("100"), dec("100"));
    let r = decimal_f64(OhlcvBar::avg_high_low_ratio(&[b])).unwrap();
    assert!((r - 1.0).abs() < 1e-9, "high==low → ratio=1, got {}", r);
}

#[test]
fn test_avg_close_position_none_for_doji_only() {
    let b = make_ohlcv_bar(dec("100"), dec("100"), dec("100"), dec("100")); // range=0
    assert!(decimal_f64(OhlcvBar::avg_close_position(&[b])).is_none());
}

#[test]
fn test_avg_close_position_one_for_close_at_high() {
    let b = make_ohlcv_bar(dec("100"), dec("110"), dec("100"), dec("110"));
    let pos = decimal_f64(OhlcvBar::avg_close_position(&[b])).unwrap();
    assert!((pos - 1.0).abs() < 1e-9, "close at high → position=1, got {}", pos);
}

#[test]
fn test_avg_wick_ratio_none_for_doji_only() {
    let b = make_ohlcv_bar(dec("100"), dec("100"), dec("100"), dec("100"));
    assert!(decimal_f64(OhlcvBar::avg_wick_ratio(&[b])).is_none());
}

#[test]
fn test_avg_wick_ratio_in_range() {
    let b = make_ohlcv_bar(dec("100"), dec("115"), dec("85"), dec("105"));
    let r = decimal_f64(OhlcvBar::avg_wick_ratio(&[b])).unwrap();
    assert!(r >= 0.0 && r <= 1.0, "wick ratio should be in [0,1], got {}", r);
}

#[test]
fn test_open_gap_mean_none_for_single_bar() {
    let b = make_ohlcv_bar(dec("100"), dec("110"), dec("90"), dec("105"));
    assert!(decimal_f64(OhlcvBar::open_gap_mean(&[b])).is_none());
}

#[test]
fn test_open_gap_mean_zero_for_no_gap() {
    let b1 = make_ohlcv_bar(dec("100"), dec("110"), dec("90"), dec("105"));
    let mut b2 = make_ohlcv_bar(dec("105"), dec("115"), dec("95"), dec("110"));
    b2.open = dec("105"); // open == prev_close → no gap
    let g = decimal_f64(OhlcvBar::open_gap_mean(&[b1, b2])).unwrap();
    assert!(g.abs() < 1e-9, "no gap → mean=0, got {}", g);
}

#[test]
fn test_avg_range_to_open_none_for_empty() {
    assert!(decimal_f64(OhlcvBar::avg_range_to_open(&[])).is_none());
}

#[test]
fn test_avg_body_to_range_none_for_empty() {
    assert!(decimal_f64(OhlcvBar::avg_body_to_range(&[])).is_none());
}

#[test]
fn test_avg_body_to_range_in_range() {
    let b = make_ohlcv_bar(dec("100"), dec("110"), dec("90"), dec("105"));
    let r = decimal_f64(OhlcvBar::avg_body_to_range(&[b])).unwrap();
    assert!(r >= 0.0 && r <= 1.0, "body-to-range in [0,1], got {}", r);
}

#[test]
fn test_avg_upper_shadow_ratio_none_for_doji_only() {
    let b = make_ohlcv_bar(dec("100"), dec("100"), dec("100"), dec("100"));
    assert!(decimal_f64(OhlcvBar::avg_upper_shadow_ratio(&[b])).is_none());
}

#[test]
fn test_avg_lower_shadow_ratio_none_for_empty() {
    assert!(decimal_f64(OhlcvBar::avg_lower_shadow_ratio(&[])).is_none());
}

#[test]
fn test_avg_lower_shadow_ratio_in_range() {
    let b = make_ohlcv_bar(dec("100"), dec("115"), dec("85"), dec("105"));
    let r = decimal_f64(OhlcvBar::avg_lower_shadow_ratio(&[b])).unwrap();
    assert!(r >= 0.0 && r <= 1.0, "lower shadow ratio in [0,1], got {}", r);
}

#[test]
fn test_close_to_open_range_ratio_none_for_doji_only() {
    let b = make_ohlcv_bar(dec("100"), dec("100"), dec("100"), dec("100"));
    assert!(decimal_f64(OhlcvBar::close_to_open_range_ratio(&[b])).is_none());
}

#[test]
fn test_avg_bar_efficiency_none_for_doji_only() {
    let b = make_ohlcv_bar(dec("100"), dec("100"), dec("100"), dec("100"));
    assert!(decimal_f64(OhlcvBar::avg_bar_efficiency(&[b])).is_none());
}

#[test]
fn test_avg_bar_efficiency_one_for_full_body_bar() {
    let b = make_ohlcv_bar(dec("90"), dec("110"), dec("90"), dec("110"));
    let e = decimal_f64(OhlcvBar::avg_bar_efficiency(&[b])).unwrap();
    assert!((e - 1.0).abs() < 1e-9, "full body → efficiency=1, got {}", e);
}

#[test]
fn test_avg_lower_wick_to_range_none_for_empty() {
    assert!(decimal_f64(OhlcvBar::avg_lower_wick_to_range(&[])).is_none());
}

#[test]
fn test_avg_lower_wick_to_range_zero_for_open_at_low() {
    // open = low, so lower wick = 0
    let b = make_ohlcv_bar(dec("90"), dec("110"), dec("90"), dec("105"));
    let r = decimal_f64(OhlcvBar::avg_lower_wick_to_range(&[b])).unwrap();
    assert!(r.abs() < 1e-9, "open=low → lower wick=0, got {}", r);
}

#[test]
fn test_avg_high_above_open_ratio_none_for_empty() {
    assert!(decimal_f64(OhlcvBar::avg_high_above_open_ratio(&[])).is_none());
}

#[test]
fn test_avg_high_above_open_ratio_in_range() {
    let b = make_ohlcv_bar(dec("100"), dec("110"), dec("90"), dec("105"));
    let r = decimal_f64(OhlcvBar::avg_high_above_open_ratio(&[b])).unwrap();
    assert!(r >= 0.0 && r <= 1.0, "ratio in [0,1], got {}", r);
}

#[test]
fn test_avg_wick_symmetry_none_for_empty() {
    assert!(decimal_f64(OhlcvBar::avg_wick_symmetry(&[])).is_none());
}

#[test]
fn test_avg_wick_symmetry_in_range() {
    let b = make_ohlcv_bar(dec("100"), dec("110"), dec("90"), dec("100"));
    // upper wick = 10, lower wick = 10 → perfectly symmetric → ratio = 1
    let s = decimal_f64(OhlcvBar::avg_wick_symmetry(&[b])).unwrap();
    assert!(s >= 0.0 && s <= 1.0, "symmetry in [0,1], got {}", s);
}

#[test]
fn test_avg_range_pct_of_open_none_for_empty() {
    assert!(decimal_f64(OhlcvBar::avg_range_pct_of_open(&[])).is_none());
}

#[test]
fn test_avg_range_pct_of_open_correct() {
    // range = 20 (110 - 90), open = 100 → 20%
    let b = make_ohlcv_bar(dec("100"), dec("110"), dec("90"), dec("105"));
    let r = decimal_f64(OhlcvBar::avg_range_pct_of_open(&[b])).unwrap();
    assert!((r - 0.2).abs() < 1e-9, "range/open = 0.2, got {}", r);
}

#[test]
fn test_mean_high_low_ratio_none_for_empty() {
    assert!(decimal_f64(OhlcvBar::mean_high_low_ratio(&[])).is_none());
}

#[test]
fn test_mean_high_low_ratio_above_one() {
    let b = make_ohlcv_bar(dec("100"), dec("110"), dec("90"), dec("100"));
    let r = decimal_f64(OhlcvBar::mean_high_low_ratio(&[b])).unwrap();
    assert!(r > 1.0, "high > low → ratio > 1, got {}", r);
}

#[test]
fn test_avg_upper_shadow_fraction_none_for_empty() {
    assert!(decimal_f64(OhlcvBar::avg_upper_shadow_fraction(&[])).is_none());
}

#[test]
fn test_avg_upper_shadow_fraction_in_range() {
    let b = make_ohlcv_bar(dec("100"), dec("110"), dec("90"), dec("100")); // close==open, upper=10, range=20
    let f = decimal_f64(OhlcvBar::avg_upper_shadow_fraction(&[b])).unwrap();
    assert!(f >= 0.0 && f <= 1.0, "fraction in [0,1], got {}", f);
}

#[test]
fn test_tail_symmetry_none_for_empty() {
    assert!(decimal_f64(OhlcvBar::tail_symmetry(&[])).is_none());
}

#[test]
fn test_tail_symmetry_one_for_symmetric_bar() {
    // open and close at midpoint → equal upper/lower shadows
    let b = make_ohlcv_bar(dec("100"), dec("110"), dec("90"), dec("100")); // open=close=100, high=110, low=90
    let s = decimal_f64(OhlcvBar::tail_symmetry(&[b])).unwrap();
    assert!((s - 1.0).abs() < 1e-9, "symmetric bar → 1.0, got {}", s);
}

#[test]
fn test_mean_bar_efficiency_none_for_empty() {
    assert!(decimal_f64(OhlcvBar::mean_bar_efficiency(&[])).is_none());
}

#[test]
fn test_mean_bar_efficiency_one_for_full_body() {
    // open=low, close=high → body = range → efficiency = 1.0
    let b = make_ohlcv_bar(dec("90"), dec("110"), dec("90"), dec("110"));
    let e = decimal_f64(OhlcvBar::mean_bar_efficiency(&[b])).unwrap();
    assert!((e - 1.0).abs() < 1e-9, "full body → 1.0, got {}", e);
}

#[test]
fn test_open_gap_ratio_none_for_single_bar() {
    let b = make_ohlcv_bar(dec("100"), dec("110"), dec("90"), dec("105"));
    assert!(decimal_f64(OhlcvBar::open_gap_ratio(&[b])).is_none());
}

#[test]
fn test_open_gap_ratio_zero_for_no_gap() {
    // bar1 closes at 105, bar2 opens at 105 → gap = 0
    let b1 = make_ohlcv_bar(dec("100"), dec("110"), dec("90"), dec("105"));
    let b2 = make_ohlcv_bar(dec("105"), dec("115"), dec("95"), dec("110"));
    let r = decimal_f64(OhlcvBar::open_gap_ratio(&[b1, b2])).unwrap();
    assert!(r.abs() < 1e-9, "no gap → ratio=0, got {}", r);
}

#[test]
fn test_candle_symmetry_score_none_for_empty() {
    assert!(decimal_f64(OhlcvBar::candle_symmetry_score(&[])).is_none());
}

#[test]
fn test_candle_symmetry_score_zero_for_full_body() {
    // open=low, close=high → body = range → 1 - 1 = 0
    let b = make_ohlcv_bar(dec("90"), dec("110"), dec("90"), dec("110"));
    let s = decimal_f64(OhlcvBar::candle_symmetry_score(&[b])).unwrap();
    assert!(s.abs() < 1e-9, "full body → score=0, got {}", s);
}

#[test]
fn test_mean_upper_shadow_pct_none_for_empty() {
    assert!(decimal_f64(OhlcvBar::mean_upper_shadow_pct(&[])).is_none());
}

#[test]
fn test_mean_upper_shadow_pct_zero_for_close_at_high() {
    // close == high → (high - close) / (high - low) = 0
    let b = make_ohlcv_bar(dec("90"), dec("110"), dec("90"), dec("110"));
    let r = decimal_f64(OhlcvBar::mean_upper_shadow_pct(&[b])).unwrap();
    assert!(r.abs() < 1e-9, "close=high → 0, got {}", r);
}

#[test]
fn test_avg_wick_to_body_ratio_none_for_empty() {
    assert!(decimal_f64(OhlcvBar::avg_wick_to_body_ratio(&[])).is_none());
}

#[test]
fn test_avg_wick_to_body_ratio_none_for_doji() {
    // open == close → body = 0, excluded
    let b = make_ohlcv_bar(dec("100"), dec("110"), dec("90"), dec("100"));
    assert!(decimal_f64(OhlcvBar::avg_wick_to_body_ratio(&[b])).is_none());
}

#[test]
fn test_avg_volume_per_range_none_for_empty() {
    assert!(decimal_f64(OhlcvBar::avg_volume_per_range(&[])).is_none());
}

#[test]
fn test_avg_volume_per_range_basic() {
    // range = 20, volume = 200 → ratio = 10
    let mut b = make_ohlcv_bar(dec("90"), dec("110"), dec("90"), dec("100"));
    b.volume = dec("200");
    let avg = decimal_f64(OhlcvBar::avg_volume_per_range(&[b])).unwrap();
    assert!((avg - 10.0).abs() < 1e-9, "expected 10.0, got {}", avg);
}

#[test]
fn test_mean_close_to_high_ratio_none_for_empty() {
    assert!(decimal_f64(OhlcvBar::mean_close_to_high_ratio(&[])).is_none());
}

#[test]
fn test_mean_close_to_high_ratio_mid_close() {
    // high=110, low=90, close=100 → (100-90)/(110-90) = 0.5
    let b = make_ohlcv_bar(dec("95"), dec("110"), dec("90"), dec("100"));
    let r = decimal_f64(OhlcvBar::mean_close_to_high_ratio(&[b])).unwrap();
    assert!((r - 0.5).abs() < 1e-9, "expected 0.5, got {}", r);
}

#[test]
fn test_open_to_close_momentum_none_for_empty() {
    assert!(decimal_f64(OhlcvBar::open_to_close_momentum(&[])).is_none());
}

#[test]
fn test_open_to_close_momentum_positive_for_up_bar() {
    // open=90, close=99 → (99-90)/90 = 0.1
    let b = make_ohlcv_bar(dec("90"), dec("110"), dec("85"), dec("99"));
    let m = decimal_f64(OhlcvBar::open_to_close_momentum(&[b])).unwrap();
    assert!((m - 0.1).abs() < 1e-9, "expected 0.1, got {}", m);
}

#[test]
fn test_shadow_dominance_none_for_empty() {
    assert!(decimal_f64(OhlcvBar::shadow_dominance(&[])).is_none());
}

#[test]
fn test_shadow_dominance_zero_for_full_body_bar() {
    // open=low, close=high → no shadow
    let b = make_ohlcv_bar(dec("90"), dec("110"), dec("90"), dec("110"));
    let d = decimal_f64(OhlcvBar::shadow_dominance(&[b])).unwrap();
    assert!(d.abs() < 1e-9, "full body → shadow_dominance=0, got {}", d);
}

#[test]
fn test_true_range_mean_none_for_single_bar() {
    let b = make_ohlcv_bar(dec("90"), dec("110"), dec("85"), dec("100"));
    assert!(decimal_f64(OhlcvBar::true_range_mean(&[b])).is_none());
}

#[test]
fn test_true_range_mean_basic() {
    // b1: high=110, low=90; b2: high=115, low=100, prev_close=100
    // TR(b2) = max(15, |115-100|, |100-100|) = max(15,15,0) = 15
    let b1 = make_ohlcv_bar(dec("90"), dec("110"), dec("85"), dec("100"));
    let b2 = make_ohlcv_bar(dec("100"), dec("115"), dec("100"), dec("112"));
    let tr = decimal_f64(OhlcvBar::true_range_mean(&[b1, b2])).unwrap();
    assert!((tr - 15.0).abs() < 1e-9, "expected 15.0, got {}", tr);
}

#[test]
fn test_close_to_open_gap_none_for_single_bar() {
    let b = make_ohlcv_bar(dec("90"), dec("110"), dec("85"), dec("100"));
    assert!(decimal_f64(OhlcvBar::close_to_open_gap(&[b])).is_none());
}

#[test]
fn test_close_to_open_gap_zero_for_no_gap() {
    // b1 closes at 100, b2 opens at 100 → gap = 0
    let b1 = make_ohlcv_bar(dec("90"), dec("110"), dec("85"), dec("100"));
    let b2 = make_ohlcv_bar(dec("100"), dec("115"), dec("95"), dec("110"));
    let g = decimal_f64(OhlcvBar::close_to_open_gap(&[b1, b2])).unwrap();
    assert!(g.abs() < 1e-9, "no gap → 0.0, got {}", g);
}

#[test]
fn test_avg_upper_shadow_none_for_empty() {
    assert!(decimal_f64(OhlcvBar::avg_upper_shadow(&[])).is_none());
}

#[test]
fn test_avg_upper_shadow_zero_for_full_body_up() {
    // open=low, close=high → no upper shadow
    let b = make_ohlcv_bar(dec("90"), dec("110"), dec("90"), dec("110"));
    let s = decimal_f64(OhlcvBar::avg_upper_shadow(&[b])).unwrap();
    assert!(s.abs() < 1e-9, "full body → upper shadow=0, got {}", s);
}

#[test]
fn test_body_to_range_mean_none_for_empty() {
    assert!(decimal_f64(OhlcvBar::body_to_range_mean(&[])).is_none());
}

#[test]
fn test_body_to_range_mean_one_for_full_body() {
    // open=low, close=high → body = range → ratio = 1
    let b = make_ohlcv_bar(dec("90"), dec("110"), dec("90"), dec("110"));
    let r = decimal_f64(OhlcvBar::body_to_range_mean(&[b])).unwrap();
    assert!((r - 1.0).abs() < 1e-9, "full body → ratio=1.0, got {}", r);
}

#[test]
fn test_bar_range_mean_none_for_empty() {
    assert!(decimal_f64(OhlcvBar::bar_range_mean(&[])).is_none());
}

#[test]
fn test_bar_range_mean_basic() {
    // high=110, low=90 → range=20
    let b = make_ohlcv_bar(dec("95"), dec("110"), dec("90"), dec("105"));
    let r = decimal_f64(OhlcvBar::bar_range_mean(&[b])).unwrap();
    assert!((r - 20.0).abs() < 1e-9, "expected 20.0, got {}", r);
}

#[test]
fn test_close_proximity_none_for_empty() {
    assert!(decimal_f64(OhlcvBar::close_proximity(&[])).is_none());
}

#[test]
fn test_close_proximity_one_for_close_at_high() {
    // close=high → (high-low)/(high-low) = 1.0
    let b = make_ohlcv_bar(dec("90"), dec("110"), dec("90"), dec("110"));
    let p = decimal_f64(OhlcvBar::close_proximity(&[b])).unwrap();
    assert!((p - 1.0).abs() < 1e-9, "close at high → 1.0, got {}", p);
}

#[test]
fn test_avg_lower_shadow_none_for_empty() {
    assert!(decimal_f64(OhlcvBar::avg_lower_shadow(&[])).is_none());
}

#[test]
fn test_avg_lower_shadow_zero_for_no_lower_shadow() {
    // open=low → lower shadow = 0
    let b = make_ohlcv_bar(dec("90"), dec("110"), dec("90"), dec("105"));
    let s = decimal_f64(OhlcvBar::avg_lower_shadow(&[b])).unwrap();
    assert!(s.abs() < 1e-9, "no lower shadow → 0, got {}", s);
}

#[test]
fn test_open_range_ratio_none_for_empty() {
    assert!(decimal_f64(OhlcvBar::open_range_ratio(&[])).is_none());
}

#[test]
fn test_open_range_ratio_zero_for_open_at_low() {
    // open=low → (low-low)/(high-low) = 0
    let b = make_ohlcv_bar(dec("90"), dec("110"), dec("90"), dec("105"));
    let r = decimal_f64(OhlcvBar::open_range_ratio(&[b])).unwrap();
    assert!(r.abs() < 1e-9, "open at low → 0.0, got {}", r);
}

#[test]
fn test_volume_normalized_range_none_for_empty() {
    assert!(decimal_f64(OhlcvBar::volume_normalized_range(&[])).is_none());
}

#[test]
fn test_close_vs_midpoint_none_for_empty() {
    assert!(decimal_f64(OhlcvBar::close_vs_midpoint(&[])).is_none());
}

#[test]
fn test_close_vs_midpoint_zero_for_close_at_midpoint() {
    // high=110, low=90 → mid=100; close=100 → 0
    let b = make_ohlcv_bar(dec("95"), dec("110"), dec("90"), dec("100"));
    let r = decimal_f64(OhlcvBar::close_vs_midpoint(&[b])).unwrap();
    assert!(r.abs() < 1e-9, "close at midpoint → 0, got {}", r);
}

#[test]
fn test_high_low_ratio_none_for_empty() {
    assert!(decimal_f64(OhlcvBar::high_low_ratio(&[])).is_none());
}

#[test]
fn test_high_low_ratio_basic() {
    // high=110, low=100 → ratio = 1.1
    let b = make_ohlcv_bar(dec("100"), dec("110"), dec("100"), dec("105"));
    let r = decimal_f64(OhlcvBar::high_low_ratio(&[b])).unwrap();
    assert!((r - 1.1).abs() < 1e-9, "expected 1.1, got {}", r);
}

#[test]
fn test_close_change_mean_none_for_single_bar() {
    let b = make_ohlcv_bar(dec("90"), dec("110"), dec("85"), dec("100"));
    assert!(decimal_f64(OhlcvBar::close_change_mean(&[b])).is_none());
}

#[test]
fn test_close_change_mean_positive_for_rising_close() {
    let b1 = make_ohlcv_bar(dec("90"), dec("110"), dec("85"), dec("100"));
    let b2 = make_ohlcv_bar(dec("100"), dec("115"), dec("95"), dec("110"));
    let m = decimal_f64(OhlcvBar::close_change_mean(&[b1, b2])).unwrap();
    assert!((m - 10.0).abs() < 1e-9, "expected 10.0, got {}", m);
}

#[test]
fn test_open_high_distance_none_for_empty() {
    assert!(decimal_f64(OhlcvBar::open_high_distance(&[])).is_none());
}

#[test]
fn test_open_high_distance_basic() {
    // open=100, high=110, low=90 → range=20, high-open=10 → ratio=0.5
    let b = make_ohlcv_bar(dec("100"), dec("110"), dec("90"), dec("105"));
    let d = decimal_f64(OhlcvBar::open_high_distance(&[b])).unwrap();
    assert!((d - 0.5).abs() < 1e-9, "expected 0.5, got {}", d);
}

#[test]
fn test_shadow_ratio_score_none_for_empty() {
    assert!(decimal_f64(OhlcvBar::shadow_ratio_score(&[])).is_none());
}

#[test]
fn test_shadow_ratio_score_basic() {
    // open=100, close=105, high=110, low=95
    // upper = 110-105=5, lower = 100-95=5 → ratio = 1.0
    let b = make_ohlcv_bar(dec("100"), dec("110"), dec("95"), dec("105"));
    let s = decimal_f64(OhlcvBar::shadow_ratio_score(&[b])).unwrap();
    assert!((s - 1.0).abs() < 1e-9, "expected 1.0, got {}", s);
}

#[test]
fn test_avg_body_to_volume_none_for_empty() {
    assert!(decimal_f64(OhlcvBar::avg_body_to_volume(&[])).is_none());
}

#[test]
fn test_avg_body_to_volume_basic() {
    // body = |105-100| = 5, volume = 50 → ratio = 0.1
    let mut b = make_ohlcv_bar(dec("100"), dec("110"), dec("90"), dec("105"));
    b.volume = dec("50");
    let r = decimal_f64(OhlcvBar::avg_body_to_volume(&[b])).unwrap();
    assert!((r - 0.1).abs() < 1e-9, "expected 0.1, got {}", r);
}

#[test]
fn test_close_to_high_mean_none_for_empty() {
    assert!(decimal_f64(OhlcvBar::close_to_high_mean(&[])).is_none());
}

#[test]
fn test_close_to_high_mean_basic() {
    // high=110, close=100, low=90 → range=20, high-close=10 → ratio=0.5
    let b = make_ohlcv_bar(dec("95"), dec("110"), dec("90"), dec("100"));
    let m = decimal_f64(OhlcvBar::close_to_high_mean(&[b])).unwrap();
    assert!((m - 0.5).abs() < 1e-9, "expected 0.5, got {}", m);
}

#[test]
fn test_open_to_high_ratio_none_for_empty() {
    assert!(decimal_f64(OhlcvBar::open_to_high_ratio(&[])).is_none());
}

#[test]
fn test_open_to_high_ratio_basic() {
    // open=100, high=110 → (110-100)/110 ≈ 0.0909
    let b = make_ohlcv_bar(dec("100"), dec("110"), dec("90"), dec("105"));
    let r = decimal_f64(OhlcvBar::open_to_high_ratio(&[b])).unwrap();
    assert!((r - 10.0 / 110.0).abs() < 1e-9, "expected ~0.0909, got {}", r);
}

#[test]
fn test_close_range_position_none_for_empty() {
    assert!(decimal_f64(OhlcvBar::close_range_position(&[])).is_none());
}

#[test]
fn test_close_range_position_basic() {
    // close=100, low=90, high=110 → (100-90)/20 = 0.5
    let b = make_ohlcv_bar(dec("95"), dec("110"), dec("90"), dec("100"));
    let p = decimal_f64(OhlcvBar::close_range_position(&[b])).unwrap();
    assert!((p - 0.5).abs() < 1e-9, "expected 0.5, got {}", p);
}

#[test]
fn test_high_to_prev_close_none_for_single() {
    let b = make_ohlcv_bar(dec("100"), dec("110"), dec("90"), dec("105"));
    assert!(decimal_f64(OhlcvBar::high_to_prev_close(&[b])).is_none());
}

#[test]
fn test_high_to_prev_close_basic() {
    // prev close=100, curr high=110 → (110-100)/100=0.1
    let prev = make_ohlcv_bar(dec("95"), dec("105"), dec("90"), dec("100"));
    let curr = make_ohlcv_bar(dec("100"), dec("110"), dec("95"), dec("108"));
    let r = decimal_f64(OhlcvBar::high_to_prev_close(&[prev, curr])).unwrap();
    assert!((r - 0.1).abs() < 1e-9, "expected 0.1, got {}", r);
}

#[test]
fn test_close_to_prev_open_none_for_single() {
    let b = make_ohlcv_bar(dec("100"), dec("110"), dec("90"), dec("105"));
    assert!(decimal_f64(OhlcvBar::close_to_prev_open(&[b])).is_none());
}

#[test]
fn test_close_to_prev_open_basic() {
    // prev open=100; curr close=110 → diff=10
    let prev = make_ohlcv_bar(dec("100"), dec("115"), dec("90"), dec("108"));
    let curr = make_ohlcv_bar(dec("105"), dec("120"), dec("95"), dec("110"));
    let d = decimal_f64(OhlcvBar::close_to_prev_open(&[prev, curr])).unwrap();
    assert!((d - 10.0).abs() < 1e-9, "expected 10.0, got {}", d);
}

#[test]
fn test_momentum_ratio_none_for_single() {
    let b = make_ohlcv_bar(dec("100"), dec("110"), dec("90"), dec("105"));
    assert!(decimal_f64(OhlcvBar::momentum_ratio(&[b])).is_none());
}

#[test]
fn test_momentum_ratio_basic() {
    // prev close=100; curr close=110 → |110-100|/100 = 0.1
    let prev = make_ohlcv_bar(dec("95"), dec("105"), dec("90"), dec("100"));
    let curr = make_ohlcv_bar(dec("100"), dec("115"), dec("95"), dec("110"));
    let m = decimal_f64(OhlcvBar::momentum_ratio(&[prev, curr])).unwrap();
    assert!((m - 0.1).abs() < 1e-9, "expected 0.1, got {}", m);
}

#[test]
fn test_body_upper_fraction_none_for_empty() {
    assert!(decimal_f64(OhlcvBar::body_upper_fraction(&[])).is_none());
}

#[test]
fn test_body_upper_fraction_basic() {
    // open=100, close=110, high=120, low=100
    // midpoint=110, max(open,close)=110; body_upper=(110-110)=0 → fraction=0/20=0
    let b = make_ohlcv_bar(dec("100"), dec("120"), dec("100"), dec("110"));
    let f = decimal_f64(OhlcvBar::body_upper_fraction(&[b])).unwrap();
    assert!(f.abs() < 1e-9, "expected ~0.0, got {}", f);
}

#[test]
fn test_avg_close_to_open_none_for_empty() {
    assert!(decimal_f64(OhlcvBar::avg_close_to_open(&[])).is_none());
}

#[test]
fn test_avg_close_to_open_basic() {
    // open=100, close=110 → (110-100)/100 = 0.1
    let b = make_ohlcv_bar(dec("100"), dec("115"), dec("90"), dec("110"));
    let r = decimal_f64(OhlcvBar::avg_close_to_open(&[b])).unwrap();
    assert!((r - 0.1).abs() < 1e-9, "expected 0.1, got {}", r);
}

#[test]
fn test_trailing_stop_distance_none_for_two() {
    let b1 = make_ohlcv_bar(dec("100"), dec("110"), dec("90"), dec("105"));
    let b2 = make_ohlcv_bar(dec("105"), dec("115"), dec("95"), dec("108"));
    assert!(decimal_f64(OhlcvBar::trailing_stop_distance(&[b1, b2])).is_none());
}

#[test]
fn test_trailing_stop_distance_basic() {
    // 3 bars: lows [90,95,92]; min_low=90; last_close=108 → distance=18
    let b1 = make_ohlcv_bar(dec("100"), dec("110"), dec("90"), dec("105"));
    let b2 = make_ohlcv_bar(dec("105"), dec("115"), dec("95"), dec("110"));
    let b3 = make_ohlcv_bar(dec("108"), dec("115"), dec("92"), dec("108"));
    let d = decimal_f64(OhlcvBar::trailing_stop_distance(&[b1, b2, b3])).unwrap();
    assert!((d - 18.0).abs() < 1e-9, "expected 18.0, got {}", d);
}

#[test]
fn test_candle_range_efficiency_none_for_empty() {
    assert!(decimal_f64(OhlcvBar::candle_range_efficiency(&[])).is_none());
}

#[test]
fn test_candle_range_efficiency_basic() {
    // open=100, close=110, high=110, low=100 → body=10, range=10 → ratio=1.0
    let b = make_ohlcv_bar(dec("100"), dec("110"), dec("100"), dec("110"));
    let e = decimal_f64(OhlcvBar::candle_range_efficiency(&[b])).unwrap();
    assert!((e - 1.0).abs() < 1e-9, "expected 1.0, got {}", e);
}

#[test]
fn test_price_momentum_mean_none_for_single() {
    let b = make_ohlcv_bar(dec("100"), dec("110"), dec("90"), dec("105"));
    assert!(decimal_f64(OhlcvBar::price_momentum_mean(&[b])).is_none());
}

#[test]
fn test_price_momentum_mean_basic() {
    // prev close=100, curr close=110 → (110-100)/100=0.1
    let prev = make_ohlcv_bar(dec("95"), dec("105"), dec("90"), dec("100"));
    let curr = make_ohlcv_bar(dec("100"), dec("115"), dec("95"), dec("110"));
    let m = decimal_f64(OhlcvBar::price_momentum_mean(&[prev, curr])).unwrap();
    assert!((m - 0.1).abs() < 1e-9, "expected 0.1, got {}", m);
}

#[test]
fn test_wicks_to_body_ratio_none_for_doji() {
    // zero body → skipped → None
    let b = make_ohlcv_bar(dec("100"), dec("110"), dec("90"), dec("100"));
    assert!(decimal_f64(OhlcvBar::wicks_to_body_ratio(&[b])).is_none());
}

#[test]
fn test_wicks_to_body_ratio_basic() {
    // open=100, close=110 (body=10), high=115, low=98 → upper=5, lower=2, wicks=7 → ratio=0.7
    let b = make_ohlcv_bar(dec("100"), dec("115"), dec("98"), dec("110"));
    let r = decimal_f64(OhlcvBar::wicks_to_body_ratio(&[b])).unwrap();
    assert!((r - 0.7).abs() < 1e-9, "expected 0.7, got {}", r);
}

#[test]
fn test_open_midpoint_ratio_none_for_empty() {
    assert!(decimal_f64(OhlcvBar::open_midpoint_ratio(&[])).is_none());
}

#[test]
fn test_open_midpoint_ratio_basic() {
    // open=100, high=120, low=80 → mid=100 → ratio=1.0
    let b = make_ohlcv_bar(dec("100"), dec("120"), dec("80"), dec("110"));
    let r = decimal_f64(OhlcvBar::open_midpoint_ratio(&[b])).unwrap();
    assert!((r - 1.0).abs() < 1e-9, "expected 1.0, got {}", r);
}

#[test]
fn test_avg_intrabar_efficiency_none_for_empty() {
    assert!(decimal_f64(OhlcvBar::avg_intrabar_efficiency(&[])).is_none());
}

#[test]
fn test_avg_intrabar_efficiency_basic() {
    // open=100, close=110, high=110, low=100 → (close-open)/range = 10/10 = 1.0
    let b = make_ohlcv_bar(dec("100"), dec("110"), dec("100"), dec("110"));
    let e = decimal_f64(OhlcvBar::avg_intrabar_efficiency(&[b])).unwrap();
    assert!((e - 1.0).abs() < 1e-9, "expected 1.0, got {}", e);
}

#[test]
fn test_range_to_volume_ratio_none_for_zero_volume() {
    let mut b = make_ohlcv_bar(dec("100"), dec("110"), dec("90"), dec("105"));
    b.volume = dec("0");
    assert!(decimal_f64(OhlcvBar::range_to_volume_ratio(&[b])).is_none());
}

#[test]
fn test_range_to_volume_ratio_basic() {
    // high=110, low=90 → range=20, volume=1 → ratio=20
    let b = make_ohlcv_bar(dec("100"), dec("110"), dec("90"), dec("105"));
    let r = decimal_f64(OhlcvBar::range_to_volume_ratio(&[b])).unwrap();
    assert!((r - 20.0).abs() < 1e-9, "expected 20.0, got {}", r);
}

#[test]
fn test_avg_high_low_spread_none_for_empty() {
    assert!(decimal_f64(OhlcvBar::avg_high_low_spread(&[])).is_none());
}

#[test]
fn test_avg_high_low_spread_basic() {
    // high=110, low=90 → spread=20
    let b = make_ohlcv_bar(dec("100"), dec("110"), dec("90"), dec("105"));
    let s = decimal_f64(OhlcvBar::avg_high_low_spread(&[b])).unwrap();
    assert!((s - 20.0).abs() < 1e-9, "expected 20.0, got {}", s);
}

#[test]
fn test_avg_body_efficiency_none_for_zero_range() {
    let b = make_ohlcv_bar(dec("100"), dec("100"), dec("100"), dec("100"));
    assert!(decimal_f64(OhlcvBar::avg_body_efficiency(&[b])).is_none());
}

#[test]
fn test_avg_body_efficiency_basic() {
    // open=100, close=110, high=110, low=100 → body=10, range=10 → ratio=1.0
    let b = make_ohlcv_bar(dec("100"), dec("110"), dec("100"), dec("110"));
    let e = decimal_f64(OhlcvBar::avg_body_efficiency(&[b])).unwrap();
    assert!((e - 1.0).abs() < 1e-9, "expected 1.0, got {}", e);
}

#[test]
fn test_avg_open_gap_none_for_single() {
    let b = make_ohlcv_bar(dec("100"), dec("110"), dec("90"), dec("105"));
    assert!(decimal_f64(OhlcvBar::avg_open_gap(&[b])).is_none());
}

#[test]
fn test_avg_open_gap_basic() {
    // bar1 close=105, bar2 open=110 → gap=5
    let b1 = make_ohlcv_bar(dec("100"), dec("110"), dec("90"), dec("105"));
    let b2 = make_ohlcv_bar(dec("110"), dec("120"), dec("100"), dec("115"));
    let g = decimal_f64(OhlcvBar::avg_open_gap(&[b1, b2])).unwrap();
    assert!((g - 5.0).abs() < 1e-9, "expected 5.0, got {}", g);
}

#[test]
fn test_hl_ratio_mean_none_for_zero_low() {
    let mut b = make_ohlcv_bar(dec("100"), dec("110"), dec("0"), dec("105"));
    b.low = dec("0");
    assert!(decimal_f64(OhlcvBar::hl_ratio_mean(&[b])).is_none());
}

#[test]
fn test_hl_ratio_mean_basic() {
    // high=110, low=100 → ratio=1.1
    let b = make_ohlcv_bar(dec("100"), dec("110"), dec("100"), dec("105"));
    let r = decimal_f64(OhlcvBar::hl_ratio_mean(&[b])).unwrap();
    assert!((r - 1.1).abs() < 1e-9, "expected 1.1, got {}", r);
}

#[test]
fn test_shadow_to_range_ratio_none_for_zero_range() {
    let b = make_ohlcv_bar(dec("100"), dec("100"), dec("100"), dec("100"));
    assert!(decimal_f64(OhlcvBar::shadow_to_range_ratio(&[b])).is_none());
}

#[test]
fn test_shadow_to_range_ratio_full_body() {
    // open=100, close=110, high=110, low=100 → no shadow → ratio=0
    let b = make_ohlcv_bar(dec("100"), dec("110"), dec("100"), dec("110"));
    let r = decimal_f64(OhlcvBar::shadow_to_range_ratio(&[b])).unwrap();
    assert!(r.abs() < 1e-9, "expected 0.0, got {}", r);
}

#[test]
fn test_avg_close_to_low_none_for_empty() {
    assert!(decimal_f64(OhlcvBar::avg_close_to_low(&[])).is_none());
}

#[test]
fn test_avg_close_to_low_basic() {
    // close=105, low=90 → close-low=15
    let b = make_ohlcv_bar(dec("100"), dec("110"), dec("90"), dec("105"));
    let c = decimal_f64(OhlcvBar::avg_close_to_low(&[b])).unwrap();
    assert!((c - 15.0).abs() < 1e-9, "expected 15.0, got {}", c);
}

#[test]
fn test_avg_high_to_close_none_for_empty() {
    assert!(decimal_f64(OhlcvBar::avg_high_to_close(&[])).is_none());
}

#[test]
fn test_avg_high_to_close_basic() {
    // high=110, close=105 → high-close=5
    let b = make_ohlcv_bar(dec("100"), dec("110"), dec("90"), dec("105"));
    let v = decimal_f64(OhlcvBar::avg_high_to_close(&[b])).unwrap();
    assert!((v - 5.0).abs() < 1e-9, "expected 5.0, got {}", v);
}

#[test]
fn test_close_to_open_pct_none_for_zero_open() {
    let mut b = make_ohlcv_bar(dec("0"), dec("110"), dec("90"), dec("105"));
    b.open = dec("0");
    assert!(decimal_f64(OhlcvBar::close_to_open_pct(&[b])).is_none());
}

#[test]
fn test_close_to_open_pct_basic() {
    // open=100, close=110 → 10%
    let b = make_ohlcv_bar(dec("100"), dec("115"), dec("95"), dec("110"));
    let p = decimal_f64(OhlcvBar::close_to_open_pct(&[b])).unwrap();
    assert!((p - 0.1).abs() < 1e-9, "expected 0.1, got {}", p);
}

#[test]
fn test_avg_low_to_close_none_for_empty() {
    assert!(decimal_f64(OhlcvBar::avg_low_to_close(&[])).is_none());
}

#[test]
fn test_avg_low_to_close_basic() {
    // low=90, close=105 → low-close=-15
    let b = make_ohlcv_bar(dec("100"), dec("110"), dec("90"), dec("105"));
    let v = decimal_f64(OhlcvBar::avg_low_to_close(&[b])).unwrap();
    assert!((v - (-15.0)).abs() < 1e-9, "expected -15.0, got {}", v);
}

#[test]
fn test_avg_close_range_pct_none_for_zero_range() {
    let b = make_ohlcv_bar(dec("100"), dec("100"), dec("100"), dec("100"));
    assert!(decimal_f64(OhlcvBar::avg_close_range_pct(&[b])).is_none());
}

#[test]
fn test_avg_close_range_pct_basic() {
    // low=90, high=110 → range=20, close=100 → (100-90)/20=0.5
    let b = make_ohlcv_bar(dec("100"), dec("110"), dec("90"), dec("100"));
    let p = decimal_f64(OhlcvBar::avg_close_range_pct(&[b])).unwrap();
    assert!((p - 0.5).abs() < 1e-9, "expected 0.5, got {}", p);
}

#[test]
fn test_shadow_asymmetry_none_for_zero_range() {
    let b = make_ohlcv_bar(dec("100"), dec("100"), dec("100"), dec("100"));
    assert!(decimal_f64(OhlcvBar::shadow_asymmetry(&[b])).is_none());
}

#[test]
fn test_shadow_asymmetry_basic() {
    // open=100, close=100 (doji), high=110, low=90 → upper=10, lower=10 → asymmetry=0
    let b = make_ohlcv_bar(dec("100"), dec("110"), dec("90"), dec("100"));
    let a = decimal_f64(OhlcvBar::shadow_asymmetry(&[b])).unwrap();
    assert!(a.abs() < 1e-9, "expected 0.0, got {}", a);
}

#[test]
fn test_open_close_midpoint_none_for_empty() {
    assert!(decimal_f64(OhlcvBar::open_close_midpoint(&[])).is_none());
}

#[test]
fn test_open_close_midpoint_basic() {
    // open=100, close=110 → midpoint=105
    let b = make_ohlcv_bar(dec("100"), dec("115"), dec("95"), dec("110"));
    let m = decimal_f64(OhlcvBar::open_close_midpoint(&[b])).unwrap();
    assert!((m - 105.0).abs() < 1e-9, "expected 105.0, got {}", m);
}

#[test]
fn test_avg_bar_volatility_none_for_empty() {
    assert!(decimal_f64(OhlcvBar::avg_bar_volatility(&[])).is_none());
}

#[test]
fn test_avg_bar_volatility_basic() {
    // open=100, high=110, low=90 → range=20, open=100 → vol=0.2
    let b = make_ohlcv_bar(dec("100"), dec("110"), dec("90"), dec("100"));
    let v = decimal_f64(OhlcvBar::avg_bar_volatility(&[b])).unwrap();
    assert!((v - 0.2).abs() < 1e-9, "expected 0.2, got {}", v);
}

#[test]
fn test_body_to_range_pct_none_for_empty() {
    assert!(decimal_f64(OhlcvBar::body_to_range_pct(&[])).is_none());
}

#[test]
fn test_body_to_range_pct_full_body() {
    // open=90, high=110, low=90, close=110 → body=range → 1.0
    let b = make_ohlcv_bar(dec("90"), dec("110"), dec("90"), dec("110"));
    let r = decimal_f64(OhlcvBar::body_to_range_pct(&[b])).unwrap();
    assert!((r - 1.0).abs() < 1e-9, "expected 1.0, got {}", r);
}

#[test]
fn test_avg_open_close_gap_none_for_single() {
    assert!(decimal_f64(OhlcvBar::avg_open_close_gap(&[make_ohlcv_bar(dec("100"), dec("110"), dec("90"), dec("105"))])).is_none());
}

#[test]
fn test_avg_open_close_gap_zero() {
    // open[1] = close[0] → gap = 0
    let b1 = make_ohlcv_bar(dec("100"), dec("110"), dec("90"), dec("105"));
    let b2 = make_ohlcv_bar(dec("105"), dec("115"), dec("100"), dec("110"));
    let g = decimal_f64(OhlcvBar::avg_open_close_gap(&[b1, b2])).unwrap();
    assert!(g.abs() < 1e-9, "expected 0.0, got {}", g);
}

#[test]
fn test_high_low_body_ratio_none_for_empty() {
    assert!(decimal_f64(OhlcvBar::high_low_body_ratio(&[])).is_none());
}

#[test]
fn test_high_low_body_ratio_basic() {
    // high=110, low=90, open=100, close=105 → upper shadow = 110-105=5, range=20 → 5/20=0.25
    let b = make_ohlcv_bar(dec("100"), dec("110"), dec("90"), dec("105"));
    let r = decimal_f64(OhlcvBar::high_low_body_ratio(&[b])).unwrap();
    assert!(r >= 0.0 && r <= 1.0, "expected [0,1], got {}", r);
}

#[test]
fn test_close_range_pct_none_for_empty() {
    assert!(decimal_f64(OhlcvBar::close_range_pct(&[])).is_none());
}

#[test]
fn test_close_range_pct_at_high() {
    // close=high=110, low=90, range=20 → (110-90)/20=1.0
    let b = make_ohlcv_bar(dec("100"), dec("110"), dec("90"), dec("110"));
    let r = decimal_f64(OhlcvBar::close_range_pct(&[b])).unwrap();
    assert!((r - 1.0).abs() < 1e-9, "expected 1.0, got {}", r);
}

#[test]
fn test_avg_bar_range_pct_none_for_empty() {
    assert!(decimal_f64(OhlcvBar::avg_bar_range_pct(&[])).is_none());
}

#[test]
fn test_avg_bar_range_pct_basic() {
    // open=100, high=110, low=90 → range=20, pct=0.2
    let b = make_ohlcv_bar(dec("100"), dec("110"), dec("90"), dec("105"));
    let r = decimal_f64(OhlcvBar::avg_bar_range_pct(&[b])).unwrap();
    assert!((r - 0.2).abs() < 1e-9, "expected 0.2, got {}", r);
}

#[test]
fn test_open_to_low_ratio_none_for_empty() {
    assert!(decimal_f64(OhlcvBar::open_to_low_ratio(&[])).is_none());
}

#[test]
fn test_open_to_low_ratio_open_at_low() {
    // open=low=90, high=110, range=20 → (90-90)/20=0.0
    let b = make_ohlcv_bar(dec("90"), dec("110"), dec("90"), dec("100"));
    let r = decimal_f64(OhlcvBar::open_to_low_ratio(&[b])).unwrap();
    assert!(r.abs() < 1e-9, "expected 0.0, got {}", r);
}

#[test]
fn test_avg_volume_change_none_for_single() {
    assert!(decimal_f64(OhlcvBar::avg_volume_change(&[make_ohlcv_bar(dec("100"), dec("110"), dec("90"), dec("105"))])).is_none());
}

#[test]
fn test_avg_volume_change_zero_for_equal_volumes() {
    let bars: Vec<_> = (0..3).map(|_| make_ohlcv_bar(dec("100"), dec("110"), dec("90"), dec("105"))).collect();
    // volume is always dec("1") from make_ohlcv_bar → no change
    let v = decimal_f64(OhlcvBar::avg_volume_change(&bars)).unwrap();
    assert!(v.abs() < 1e-9, "expected 0.0, got {}", v);
}

#[test]
fn test_avg_true_range_ratio_none_for_single() {
    assert!(decimal_f64(OhlcvBar::avg_true_range_ratio(&[make_ohlcv_bar(dec("100"), dec("110"), dec("90"), dec("105"))])).is_none());
}

#[test]
fn test_avg_true_range_ratio_basic() {
    // prior close=105, next high=115, low=100 → range=15, ratio=15/105≈0.1429
    let b1 = make_ohlcv_bar(dec("100"), dec("110"), dec("90"), dec("105"));
    let b2 = make_ohlcv_bar(dec("105"), dec("115"), dec("100"), dec("110"));
    let r = decimal_f64(OhlcvBar::avg_true_range_ratio(&[b1, b2])).unwrap();
    assert!(r > 0.0, "expected positive ratio, got {}", r);
}

#[test]
fn test_close_body_fraction_none_for_empty() {
    assert!(decimal_f64(OhlcvBar::close_body_fraction(&[])).is_none());
}

#[test]
fn test_close_body_fraction_full_body() {
    // open=90, close=110, high=110, low=90 → body=range → 1.0
    let b = make_ohlcv_bar(dec("90"), dec("110"), dec("90"), dec("110"));
    let f = decimal_f64(OhlcvBar::close_body_fraction(&[b])).unwrap();
    assert!((f - 1.0).abs() < 1e-9, "expected 1.0, got {}", f);
}

#[test]
fn test_bar_momentum_accel_none_for_two() {
    let bars = [
        make_ohlcv_bar(dec("100"), dec("110"), dec("90"), dec("105")),
        make_ohlcv_bar(dec("105"), dec("115"), dec("100"), dec("110")),
    ];
    assert!(decimal_f64(OhlcvBar::bar_momentum_accel(&bars)).is_none());
}

#[test]
fn test_bar_momentum_accel_linear_zero() {
    // linear close → zero acceleration
    let b1 = make_ohlcv_bar(dec("100"), dec("110"), dec("90"), dec("100"));
    let b2 = make_ohlcv_bar(dec("100"), dec("110"), dec("90"), dec("102"));
    let b3 = make_ohlcv_bar(dec("100"), dec("110"), dec("90"), dec("104"));
    let a = decimal_f64(OhlcvBar::bar_momentum_accel(&[b1, b2, b3])).unwrap();
    assert!(a.abs() < 1e-9, "expected 0.0, got {}", a);
}

#[test]
fn test_close_velocity_none_for_single() {
    assert!(decimal_f64(OhlcvBar::close_velocity(&[make_ohlcv_bar(dec("100"), dec("110"), dec("90"), dec("105"))])).is_none());
}

#[test]
fn test_close_velocity_constant_zero() {
    let bars: Vec<_> = (0..3).map(|_| make_ohlcv_bar(dec("100"), dec("110"), dec("90"), dec("105"))).collect();
    let v = decimal_f64(OhlcvBar::close_velocity(&bars)).unwrap();
    assert!(v.abs() < 1e-9, "expected 0.0, got {}", v);
}

#[test]
fn test_open_range_score_none_for_empty() {
    assert!(decimal_f64(OhlcvBar::open_range_score(&[])).is_none());
}

#[test]
fn test_open_range_score_open_at_low() {
    // open=low=90, high=110 → score=0
    let b = make_ohlcv_bar(dec("90"), dec("110"), dec("90"), dec("100"));
    let s = decimal_f64(OhlcvBar::open_range_score(&[b])).unwrap();
    assert!(s.abs() < 1e-9, "expected 0.0, got {}", s);
}

#[test]
fn test_bar_tightness_none_for_empty() {
    assert!(decimal_f64(OhlcvBar::bar_tightness(&[])).is_none());
}

#[test]
fn test_bar_tightness_basic() {
    // open=100, close=105, high=110, low=90 → mid=102.5, range=20, tightness=20/102.5≈0.195
    let b = make_ohlcv_bar(dec("100"), dec("110"), dec("90"), dec("105"));
    let t = decimal_f64(OhlcvBar::bar_tightness(&[b])).unwrap();
    assert!(t > 0.0, "expected positive tightness, got {}", t);
}

#[test]
fn test_avg_close_slope_none_for_single() {
    assert!(decimal_f64(OhlcvBar::avg_close_slope(&[make_ohlcv_bar(dec("100"), dec("110"), dec("90"), dec("105"))])).is_none());
}

#[test]
fn test_avg_close_slope_rising() {
    let b1 = make_ohlcv_bar(dec("100"), dec("110"), dec("90"), dec("100"));
    let b2 = make_ohlcv_bar(dec("100"), dec("110"), dec("90"), dec("105"));
    let s = decimal_f64(OhlcvBar::avg_close_slope(&[b1, b2])).unwrap();
    assert!((s - 5.0).abs() < 1e-9, "expected 5.0, got {}", s);
}

#[test]
fn test_bar_energy_none_for_empty() {
    assert!(scientific_f64(OhlcvBar::bar_energy(&[])).is_none());
}

#[test]
fn test_bar_energy_basic() {
    // range = 10, energy = 100
    let b = make_ohlcv_bar(dec("100"), dec("110"), dec("100"), dec("105"));
    let e = scientific_f64(OhlcvBar::bar_energy(&[b])).unwrap();
    assert!((e - 100.0).abs() < 1e-6, "expected 100.0, got {}", e);
}

#[test]
fn test_bar_range_trend_none_for_single() {
    assert!(decimal_f64(OhlcvBar::bar_range_trend(&[make_ohlcv_bar(dec("100"), dec("110"), dec("90"), dec("105"))])).is_none());
}

#[test]
fn test_bar_range_trend_expanding() {
    // ranges: 10, 20 → diff = 10
    let b1 = make_ohlcv_bar(dec("100"), dec("110"), dec("100"), dec("105"));
    let b2 = make_ohlcv_bar(dec("100"), dec("120"), dec("100"), dec("110"));
    let t = decimal_f64(OhlcvBar::bar_range_trend(&[b1, b2])).unwrap();
    assert!(t > 0.0, "expected positive trend, got {}", t);
}

#[test]
fn test_open_high_spread_none_for_empty() {
    assert!(decimal_f64(OhlcvBar::open_high_spread(&[])).is_none());
}

#[test]
fn test_open_high_spread_basic() {
    // open=100, high=110 → spread = 0.1
    let b = make_ohlcv_bar(dec("100"), dec("110"), dec("90"), dec("105"));
    let s = decimal_f64(OhlcvBar::open_high_spread(&[b])).unwrap();
    assert!((s - 0.1).abs() < 1e-9, "expected 0.1, got {}", s);
}

#[test]
fn test_close_body_range_ratio_none_for_empty() {
    assert!(decimal_f64(OhlcvBar::close_body_range_ratio(&[])).is_none());
}

#[test]
fn test_close_body_range_ratio_full_body() {
    // open=90, close=110, high=110, low=90 → body=20, range=20 → ratio=1.0
    let b = make_ohlcv_bar(dec("90"), dec("110"), dec("90"), dec("110"));
    let r = decimal_f64(OhlcvBar::close_body_range_ratio(&[b])).unwrap();
    assert!((r - 1.0).abs() < 1e-9, "expected 1.0, got {}", r);
}

#[test]
fn test_avg_body_pct_none_for_empty() {
    assert!(decimal_f64(OhlcvBar::avg_body_pct(&[])).is_none());
}

#[test]
fn test_avg_body_pct_basic() {
    // open=100, close=110 → body=10, pct=0.1
    let b = make_ohlcv_bar(dec("100"), dec("115"), dec("85"), dec("110"));
    let p = decimal_f64(OhlcvBar::avg_body_pct(&[b])).unwrap();
    assert!((p - 0.1).abs() < 1e-9, "expected 0.1, got {}", p);
}

#[test]
fn test_bar_symmetry_none_for_empty() {
    assert!(decimal_f64(OhlcvBar::bar_symmetry(&[])).is_none());
}

#[test]
fn test_bar_symmetry_symmetric_bar() {
    // open=105, close=95, high=110, low=90 → upper=5, lower=5 → asymmetry=0
    let b = make_ohlcv_bar(dec("105"), dec("110"), dec("90"), dec("95"));
    let s = decimal_f64(OhlcvBar::bar_symmetry(&[b])).unwrap();
    assert!(s.abs() < 1e-9, "expected 0.0 for symmetric bar, got {}", s);
}

#[test]
fn test_bar_body_skew_none_for_empty() {
    assert!(decimal_f64(OhlcvBar::bar_body_skew(&[])).is_none());
}

#[test]
fn test_bar_body_skew_bullish() {
    // open=90, close=110, high=110, low=90 → body/range = 1.0 (bullish)
    let b = make_ohlcv_bar(dec("90"), dec("110"), dec("90"), dec("110"));
    let s = decimal_f64(OhlcvBar::bar_body_skew(&[b])).unwrap();
    assert!((s - 1.0).abs() < 1e-9, "expected 1.0 for full bullish, got {}", s);
}

#[test]
fn test_bar_volume_trend_none_for_single() {
    assert!(decimal_f64(OhlcvBar::bar_volume_trend(&[make_ohlcv_bar(dec("100"), dec("110"), dec("90"), dec("105"))])).is_none());
}

#[test]
fn test_bar_volume_trend_increasing() {
    let mut b1 = make_ohlcv_bar(dec("100"), dec("110"), dec("90"), dec("105"));
    b1.volume = dec("10");
    let mut b2 = make_ohlcv_bar(dec("100"), dec("110"), dec("90"), dec("105"));
    b2.volume = dec("20");
    let t = decimal_f64(OhlcvBar::bar_volume_trend(&[b1, b2])).unwrap();
    assert!(t > 0.0, "expected positive trend, got {}", t);
}

#[test]
fn test_close_low_spread_none_for_empty() {
    assert!(decimal_f64(OhlcvBar::close_low_spread(&[])).is_none());
}

#[test]
fn test_close_low_spread_close_at_high() {
    // open=90, high=110, low=90, close=110 → (110-90)/(110-90) = 1.0
    let b = make_ohlcv_bar(dec("90"), dec("110"), dec("90"), dec("110"));
    let s = decimal_f64(OhlcvBar::close_low_spread(&[b])).unwrap();
    assert!((s - 1.0).abs() < 1e-9, "expected 1.0, got {}", s);
}

#[test]
fn test_bar_midpoint_trend_none_for_single() {
    assert!(decimal_f64(OhlcvBar::bar_midpoint_trend(&[make_ohlcv_bar(dec("100"), dec("110"), dec("90"), dec("105"))])).is_none());
}

#[test]
fn test_bar_midpoint_trend_rising() {
    let b1 = make_ohlcv_bar(dec("100"), dec("110"), dec("90"), dec("105"));
    let b2 = make_ohlcv_bar(dec("110"), dec("120"), dec("100"), dec("115"));
    let t = decimal_f64(OhlcvBar::bar_midpoint_trend(&[b1, b2])).unwrap();
    assert!(t > 0.0, "expected positive trend, got {}", t);
}

#[test]
fn test_bar_spread_score_none_for_empty() {
    assert!(decimal_f64(OhlcvBar::bar_spread_score(&[])).is_none());
}

#[test]
fn test_bar_spread_score_basic() {
    // range=20, close=105 → spread=20/105
    let b = make_ohlcv_bar(dec("100"), dec("110"), dec("90"), dec("105"));
    let s = decimal_f64(OhlcvBar::bar_spread_score(&[b])).unwrap();
    assert!(s > 0.0, "expected positive score, got {}", s);
}

#[test]
fn test_close_body_position_none_for_empty() {
    assert!(decimal_f64(OhlcvBar::close_body_position(&[])).is_none());
}

#[test]
fn test_close_body_position_at_high() {
    // high=110, low=90, close=110 → position=1.0
    let b = make_ohlcv_bar(dec("100"), dec("110"), dec("90"), dec("110"));
    let p = decimal_f64(OhlcvBar::close_body_position(&[b])).unwrap();
    assert!((p - 1.0).abs() < 1e-9, "expected 1.0, got {}", p);
}

#[test]
fn test_close_wick_ratio_none_for_empty() {
    assert!(decimal_f64(OhlcvBar::close_wick_ratio(&[])).is_none());
}

#[test]
fn test_close_wick_ratio_no_upper_wick() {
    // open=100, close=110, high=110 → upper_wick=0, body=10 → ratio=0
    let b = make_ohlcv_bar(dec("100"), dec("110"), dec("90"), dec("110"));
    let r = decimal_f64(OhlcvBar::close_wick_ratio(&[b])).unwrap();
    assert!(r.abs() < 1e-9, "expected 0.0 for no upper wick, got {}", r);
}

#[test]
fn test_bar_high_trend_none_for_single() {
    assert!(decimal_f64(OhlcvBar::bar_high_trend(&[make_ohlcv_bar(dec("100"), dec("110"), dec("90"), dec("105"))])).is_none());
}

#[test]
fn test_bar_high_trend_rising() {
    let b1 = make_ohlcv_bar(dec("100"), dec("110"), dec("90"), dec("105"));
    let b2 = make_ohlcv_bar(dec("105"), dec("120"), dec("95"), dec("115"));
    let t = decimal_f64(OhlcvBar::bar_high_trend(&[b1, b2])).unwrap();
    assert!(t > 0.0, "expected positive trend, got {}", t);
}

#[test]
fn test_bar_low_trend_none_for_single() {
    assert!(decimal_f64(OhlcvBar::bar_low_trend(&[make_ohlcv_bar(dec("100"), dec("110"), dec("90"), dec("105"))])).is_none());
}

#[test]
fn test_bar_low_trend_falling() {
    let b1 = make_ohlcv_bar(dec("100"), dec("110"), dec("90"), dec("105"));
    let b2 = make_ohlcv_bar(dec("95"), dec("108"), dec("80"), dec("100"));
    let t = decimal_f64(OhlcvBar::bar_low_trend(&[b1, b2])).unwrap();
    assert!(t < 0.0, "expected negative trend for falling lows, got {}", t);
}

#[test]
fn test_close_high_wick_none_for_empty() {
    assert!(decimal_f64(OhlcvBar::close_high_wick(&[])).is_none());
}

#[test]
fn test_close_high_wick_at_high() {
    // close at high → upper wick = 0
    let b = make_ohlcv_bar(dec("100"), dec("110"), dec("90"), dec("110"));
    let w = decimal_f64(OhlcvBar::close_high_wick(&[b])).unwrap();
    assert!(w.abs() < 1e-9, "expected 0.0 when close=high, got {}", w);
}

#[test]
fn test_bar_midpoint_score_none_for_empty() {
    assert!(decimal_f64(OhlcvBar::bar_midpoint_score(&[])).is_none());
}

#[test]
fn test_bar_midpoint_score_symmetric() {
    // high=110, low=90, open=100 → mid=100, (100-100)/20 = 0.0
    let b = make_ohlcv_bar(dec("100"), dec("110"), dec("90"), dec("105"));
    let s = decimal_f64(OhlcvBar::bar_midpoint_score(&[b])).unwrap();
    assert!(s.abs() < 1e-9, "expected 0.0 for symmetric bar, got {}", s);
}

#[test]
fn test_bar_open_efficiency_none_for_empty() {
    assert!(decimal_f64(OhlcvBar::bar_open_efficiency(&[])).is_none());
}

#[test]
fn test_bar_open_efficiency_full_body() {
    // body = range → efficiency = 1.0
    let b = make_ohlcv_bar(dec("90"), dec("110"), dec("90"), dec("110"));
    let e = decimal_f64(OhlcvBar::bar_open_efficiency(&[b])).unwrap();
    assert!((e - 1.0).abs() < 1e-9, "expected 1.0, got {}", e);
}

#[test]
fn test_bar_high_low_score_none_for_empty() {
    assert!(decimal_f64(OhlcvBar::bar_high_low_score(&[])).is_none());
}

#[test]
fn test_bar_high_low_score_positive() {
    let b = make_ohlcv_bar(dec("100"), dec("110"), dec("90"), dec("105"));
    let s = decimal_f64(OhlcvBar::bar_high_low_score(&[b])).unwrap();
    assert!(s > 0.0, "expected positive score, got {}", s);
}

#[test]
fn test_bar_range_change_none_for_single() {
    assert!(decimal_f64(OhlcvBar::bar_range_change(&[make_ohlcv_bar(dec("100"), dec("110"), dec("90"), dec("105"))])).is_none());
}

#[test]
fn test_bar_range_change_expanding() {
    let b1 = make_ohlcv_bar(dec("100"), dec("110"), dec("90"), dec("105"));
    let b2 = make_ohlcv_bar(dec("100"), dec("120"), dec("80"), dec("105"));
    let c = decimal_f64(OhlcvBar::bar_range_change(&[b1, b2])).unwrap();
    assert!(c > 0.0, "expected positive change for expanding range, got {}", c);
}
