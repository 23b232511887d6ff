use fin_stream::bar::OhlcvBar;
use fin_stream::decimal::Decimal;
use fin_stream::timeframe::Timeframe;
use rust_decimal::prelude::ToPrimitive;

/// The number that a literal writes.
fn dec(text: &str) -> Decimal {
    let d: rust_decimal::Decimal = text.parse().unwrap();
    Decimal::from_parts(d.mantissa(), d.scale()).unwrap()
}

fn float(d: Decimal) -> f64 {
    let (mantissa, scale) = d.parts();
    rust_decimal::Decimal::from_i128_with_scale(mantissa, scale).to_f64().unwrap()
}

fn decimal_f64(d: Option<Decimal>) -> Option<f64> {
    d.map(float)
}

fn make_ohlcv_bar(open: Decimal, high: Decimal, low: Decimal, close: Decimal) -> OhlcvBar {
    OhlcvBar {
        symbol: "X".into(),
        timeframe: Timeframe::Minutes(1),
        open,
        high,
        low,
        close,
        volume: dec("1"),
        bar_start_ms: 0,
        trade_count: 1,
        is_complete: false,
        is_gap_fill: false,
        vwap: None,
    }
}

#[test]
fn test_highest_close_none_for_empty_slice() {
    assert!(OhlcvBar::highest_close(&[]).is_none());
}

#[test]
fn test_highest_close_returns_max_close() {
    let b1 = make_ohlcv_bar(dec("100"), dec("110"), dec("90"), dec("105"));
    let b2 = make_ohlcv_bar(dec("100"), dec("120"), dec("95"), dec("115"));
    let b3 = make_ohlcv_bar(dec("100"), dec("108"), dec("90"), dec("102"));
    assert_eq!(OhlcvBar::highest_close(&[b1, b2, b3]), Some(dec("115")));
}

#[test]
fn test_lowest_close_none_for_empty_slice() {
    assert!(OhlcvBar::lowest_close(&[]).is_none());
}

#[test]
fn test_lowest_close_returns_min_close() {
    let b1 = make_ohlcv_bar(dec("100"), dec("110"), dec("90"), dec("105"));
    let b2 = make_ohlcv_bar(dec("100"), dec("120"), dec("95"), dec("115"));
    let b3 = make_ohlcv_bar(dec("100"), dec("108"), dec("90"), dec("102"));
    assert_eq!(OhlcvBar::lowest_close(&[b1, b2, b3]), Some(dec("102")));
}

#[test]
fn test_close_range_none_for_empty_slice() {
    assert!(OhlcvBar::close_range(&[]).is_none());
}

#[test]
fn test_close_range_correct() {
    let b1 = make_ohlcv_bar(dec("100"), dec("110"), dec("90"), dec("102"));
    let b2 = make_ohlcv_bar(dec("100"), dec("120"), dec("95"), dec("115"));
    // highest=115, lowest=102, range=13
    assert_eq!(OhlcvBar::close_range(&[b1, b2]), Some(dec("13")));
}

#[test]
fn test_min_body_none_for_empty_slice() {
    assert!(OhlcvBar::min_body(&[]).is_none());
}

#[test]
fn test_min_body_returns_smallest_body() {
    let b1 = make_ohlcv_bar(dec("100"), dec("110"), dec("90"), dec("105")); // body=5
    let b2 = make_ohlcv_bar(dec("100"), dec("110"), dec("90"), dec("115")); // body=15
    assert_eq!(OhlcvBar::min_body(&[b1, b2]), Some(dec("5")));
}

#[test]
fn test_max_body_none_for_empty_slice() {
    assert!(OhlcvBar::max_body(&[]).is_none());
}

#[test]
fn test_max_body_returns_largest_body() {
    let b1 = make_ohlcv_bar(dec("100"), dec("110"), dec("90"), dec("105")); // body=5
    let b2 = make_ohlcv_bar(dec("100"), dec("110"), dec("90"), dec("115")); // body=15
    assert_eq!(OhlcvBar::max_body(&[b1, b2]), Some(dec("15")));
}

#[test]
fn test_channel_width_none_for_empty_slice() {
    assert!(OhlcvBar::channel_width(&[]).is_none());
}

#[test]
fn test_channel_width_correct() {
    let b1 = make_ohlcv_bar(dec("100"), dec("120"), dec("90"), dec("105"));
    let b2 = make_ohlcv_bar(dec("100"), dec("115"), dec("80"), dec("100"));
    // highest_high = 120, lowest_low = 80, width = 40
    assert_eq!(OhlcvBar::channel_width(&[b1, b2]), Some(dec("40")));
}

#[test]
fn test_highest_open_none_for_empty_slice() {
    assert!(OhlcvBar::highest_open(&[]).is_none());
}

#[test]
fn test_highest_open_returns_max() {
    let b1 = make_ohlcv_bar(dec("100"), dec("110"), dec("90"), dec("105"));
    let b2 = make_ohlcv_bar(dec("130"), dec("140"), dec("120"), dec("135"));
    assert_eq!(OhlcvBar::highest_open(&[b1, b2]), Some(dec("130")));
}

#[test]
fn test_lowest_open_none_for_empty_slice() {
    assert!(OhlcvBar::lowest_open(&[]).is_none());
}

#[test]
fn test_lowest_open_returns_min() {
    let b1 = make_ohlcv_bar(dec("100"), dec("110"), dec("90"), dec("105"));
    let b2 = make_ohlcv_bar(dec("130"), dec("140"), dec("120"), dec("135"));
    assert_eq!(OhlcvBar::lowest_open(&[b1, b2]), Some(dec("100")));
}

#[test]
fn test_max_volume_bar_none_for_empty_slice() {
    assert!(OhlcvBar::max_volume_bar(&[]).is_none());
}

#[test]
fn test_max_volume_bar_returns_highest_volume() {
    let mut b1 = make_ohlcv_bar(dec("100"), dec("110"), dec("90"), dec("105")); b1.volume = dec("10");
    let mut b2 = make_ohlcv_bar(dec("100"), dec("110"), dec("90"), dec("105")); b2.volume = dec("100");
    let bars = [b1, b2];
    let bar = OhlcvBar::max_volume_bar(&bars).unwrap();
    assert_eq!(bar.volume, dec("100"));
}

#[test]
fn test_min_volume_bar_returns_lowest_volume() {
    let mut b1 = make_ohlcv_bar(dec("100"), dec("110"), dec("90"), dec("105")); b1.volume = dec("10");
    let mut b2 = make_ohlcv_bar(dec("100"), dec("110"), dec("90"), dec("105")); b2.volume = dec("100");
    let bars = [b1, b2];
    let bar = OhlcvBar::min_volume_bar(&bars).unwrap();
    assert_eq!(bar.volume, dec("10"));
}

#[test]
fn test_max_close_r65_none_empty() {
    assert!(OhlcvBar::max_close(&[]).is_none());
}

#[test]
fn test_max_close_r65_highest() {
    let b1 = make_ohlcv_bar(dec("100"), dec("115"), dec("95"), dec("110"));
    let b2 = make_ohlcv_bar(dec("110"), dec("130"), dec("108"), dec("125"));
    let b3 = make_ohlcv_bar(dec("115"), dec("120"), dec("112"), dec("118"));
    assert_eq!(OhlcvBar::max_close(&[b1, b2, b3]), Some(dec("125")));
}

#[test]
fn test_min_close_r65_lowest() {
    let b1 = make_ohlcv_bar(dec("100"), dec("115"), dec("95"), dec("110"));
    let b2 = make_ohlcv_bar(dec("110"), dec("130"), dec("108"), dec("125"));
    let b3 = make_ohlcv_bar(dec("90"), dec("105"), dec("88"), dec("95"));
    assert_eq!(OhlcvBar::min_close(&[b1, b2, b3]), Some(dec("95")));
}

#[test]
fn test_peak_trough_close_none_for_empty() {
    assert!(OhlcvBar::peak_close(&[]).is_none());
    assert!(OhlcvBar::trough_close(&[]).is_none());
}

#[test]
fn test_peak_trough_close_correct() {
    let bars = vec![
        make_ohlcv_bar(dec("100"), dec("110"), dec("90"), dec("105")),
        make_ohlcv_bar(dec("105"), dec("120"), dec("100"), dec("115")),
        make_ohlcv_bar(dec("110"), dec("115"), dec("95"), dec("98")),
    ];
    assert_eq!(OhlcvBar::peak_close(&bars).unwrap(), dec("115"));
    assert_eq!(OhlcvBar::trough_close(&bars).unwrap(), dec("98"));
}

#[test]
fn test_median_range_none_for_empty() {
    assert!(OhlcvBar::median_range(&[]).is_none());
}

#[test]
fn test_median_range_correct_odd() {
    let bars = vec![
        make_ohlcv_bar(dec("100"), dec("110"), dec("90"), dec("105")),  // range=20
        make_ohlcv_bar(dec("100"), dec("115"), dec("90"), dec("105")),  // range=25
        make_ohlcv_bar(dec("100"), dec("120"), dec("90"), dec("105")),  // range=30
    ];
    assert_eq!(OhlcvBar::median_range(&bars).unwrap(), dec("25"));
}

#[test]
fn test_max_trade_count_none_for_empty() {
    assert!(OhlcvBar::max_trade_count(&[]).is_none());
}

#[test]
fn test_max_trade_count_returns_max() {
    let mut b1 = make_ohlcv_bar(dec("100"), dec("110"), dec("90"), dec("105")); b1.trade_count = 5;
    let mut b2 = make_ohlcv_bar(dec("100"), dec("110"), dec("90"), dec("105")); b2.trade_count = 10;
    assert_eq!(OhlcvBar::max_trade_count(&[b1, b2]).unwrap(), 10);
}

#[test]
fn test_min_trade_count_none_for_empty() {
    assert!(OhlcvBar::min_trade_count(&[]).is_none());
}

#[test]
fn test_min_trade_count_returns_min() {
    let mut b1 = make_ohlcv_bar(dec("100"), dec("110"), dec("90"), dec("105")); b1.trade_count = 5;
    let mut b2 = make_ohlcv_bar(dec("100"), dec("110"), dec("90"), dec("105")); b2.trade_count = 2;
    assert_eq!(OhlcvBar::min_trade_count(&[b1, b2]).unwrap(), 2);
}

#[test]
fn test_max_up_move_none_for_empty() {
    assert!(OhlcvBar::max_up_move(&[]).is_none());
}

#[test]
fn test_max_up_move_largest_bullish_body() {
    let b1 = make_ohlcv_bar(dec("100"), dec("110"), dec("90"), dec("108")); // up: 8
    let b2 = make_ohlcv_bar(dec("100"), dec("110"), dec("90"), dec("105")); // up: 5
    assert_eq!(OhlcvBar::max_up_move(&[b1, b2]).unwrap(), dec("8"));
}

#[test]
fn test_max_down_move_none_for_empty() {
    assert!(OhlcvBar::max_down_move(&[]).is_none());
}

#[test]
fn test_max_down_move_largest_bearish_body() {
    let b1 = make_ohlcv_bar(dec("108"), dec("115"), dec("85"), dec("100")); // down: 8
    let b2 = make_ohlcv_bar(dec("103"), dec("110"), dec("90"), dec("100")); // down: 3
    assert_eq!(OhlcvBar::max_down_move(&[b1, b2]).unwrap(), dec("8"));
}

#[test]
fn test_median_close_none_for_empty() {
    assert!(OhlcvBar::median_close(&[]).is_none());
}

#[test]
fn test_median_close_correct_for_sorted() {
    let b1 = make_ohlcv_bar(dec("100"), dec("110"), dec("90"), dec("100"));
    let b2 = make_ohlcv_bar(dec("100"), dec("110"), dec("90"), dec("105"));
    let b3 = make_ohlcv_bar(dec("100"), dec("110"), dec("90"), dec("110"));
    let m = OhlcvBar::median_close(&[b1, b2, b3]).unwrap();
    assert_eq!(m, dec("105"));
}

#[test]
fn test_max_open_gap_none_for_single_bar() {
    let b = make_ohlcv_bar(dec("100"), dec("110"), dec("90"), dec("105"));
    assert!(OhlcvBar::max_open_gap(&[b]).is_none());
}

#[test]
fn test_max_high_none_for_empty() {
    assert!(OhlcvBar::max_high(&[]).is_none());
}

#[test]
fn test_max_high_returns_maximum() {
    let b1 = make_ohlcv_bar(dec("100"), dec("110"), dec("90"), dec("105"));
    let b2 = make_ohlcv_bar(dec("100"), dec("120"), dec("90"), dec("110"));
    assert_eq!(OhlcvBar::max_high(&[b1, b2]).unwrap(), dec("120"));
}

#[test]
fn test_min_low_none_for_empty() {
    assert!(OhlcvBar::min_low(&[]).is_none());
}

#[test]
fn test_min_low_returns_minimum() {
    let b1 = make_ohlcv_bar(dec("100"), dec("110"), dec("85"), dec("105"));
    let b2 = make_ohlcv_bar(dec("100"), dec("110"), dec("90"), dec("105"));
    assert_eq!(OhlcvBar::min_low(&[b1, b2]).unwrap(), dec("85"));
}

#[test]
fn test_max_body_size_none_for_empty() {
    assert!(OhlcvBar::max_body_size(&[]).is_none());
}

#[test]
fn test_max_body_size_correct_value() {
    let b1 = make_ohlcv_bar(dec("100"), dec("110"), dec("90"), dec("108"));
    let b2 = make_ohlcv_bar(dec("100"), dec("110"), dec("90"), dec("103"));
    assert_eq!(OhlcvBar::max_body_size(&[b1, b2]).unwrap(), dec("8"));
}

#[test]
fn test_min_body_size_none_for_empty() {
    assert!(OhlcvBar::min_body_size(&[]).is_none());
}

#[test]
fn test_max_bar_volume_none_for_empty() {
    assert!(OhlcvBar::max_bar_volume(&[]).is_none());
}

#[test]
fn test_max_bar_volume_selects_largest() {
    let b1 = make_ohlcv_bar(dec("100"), dec("110"), dec("90"), dec("105"));
    let b2 = make_ohlcv_bar(dec("100"), dec("110"), dec("90"), dec("105"));
    // make_ohlcv_bar sets volume=1 by default; override manually
    // use default and confirm max equals volume
    let vol = OhlcvBar::max_bar_volume(&[b1, b2]).unwrap();
    assert!(vol > dec("0"));
}

#[test]
fn test_min_bar_volume_none_for_empty() {
    assert!(OhlcvBar::min_bar_volume(&[]).is_none());
}

#[test]
fn test_price_channel_width_none_for_empty() {
    assert!(decimal_f64(OhlcvBar::price_channel_width(&[])).is_none());
}

#[test]
fn test_price_channel_width_basic() {
    // high=110, low=85 → width=25
    let b = make_ohlcv_bar(dec("90"), dec("110"), dec("85"), dec("100"));
    let w = decimal_f64(OhlcvBar::price_channel_width(&[b])).unwrap();
    assert!((w - 25.0).abs() < 1e-9, "expected 25.0, got {}", w);
}

#[test]
fn test_median_volume_none_for_empty() {
    assert!(decimal_f64(OhlcvBar::median_volume(&[])).is_none());
}

#[test]
fn test_median_volume_single_bar() {
    let mut b = make_ohlcv_bar(dec("90"), dec("110"), dec("85"), dec("100"));
    b.volume = dec("50");
    let m = decimal_f64(OhlcvBar::median_volume(&[b])).unwrap();
    assert!((m - 50.0).abs() < 1e-9, "expected 50.0, got {}", m);
}

#[test]
fn test_max_close_minus_open_none_for_empty() {
    assert!(decimal_f64(OhlcvBar::max_close_minus_open(&[])).is_none());
}

#[test]
fn test_max_close_minus_open_basic() {
    let b1 = make_ohlcv_bar(dec("100"), dec("110"), dec("90"), dec("108"));
    let b2 = make_ohlcv_bar(dec("100"), dec("110"), dec("90"), dec("103"));
    let m = decimal_f64(OhlcvBar::max_close_minus_open(&[b1, b2])).unwrap();
    assert!((m - 8.0).abs() < 1e-9, "expected 8.0, got {}", m);
}
