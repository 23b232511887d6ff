use fin_stream::bar::OhlcvBar;
use fin_stream::decimal::Decimal;
use fin_stream::timeframe::Timeframe;

/// The number that a literal writes.
fn dec(text: &str) -> Decimal {
    let d: rust_decimal::Decimal = text.parse().unwrap();
    Decimal::from_parts(d.mantissa(), d.scale()).unwrap()
}

fn make_ohlcv_bar(open: Decimal, high: Decimal, low: Decimal, close: Decimal) -> OhlcvBar {
    OhlcvBar {
        symbol: "X".into(),
        timeframe: Timeframe::Minutes(1),
        open,
        high,
        low,
        close,
        volume: dec("1"),
        bar_start_ms: 0,
        trade_count: 1,
        is_complete: false,
        is_gap_fill: false,
        vwap: None,
    }
}

#[test]
fn test_three_white_soldiers_false_for_fewer_than_3_bars() {
    let b = make_ohlcv_bar(dec("100"), dec("110"), dec("90"), dec("105"));
    assert!(!OhlcvBar::three_white_soldiers(&[b]));
}

#[test]
fn test_three_white_soldiers_true_for_classic_pattern() {
    let b1 = make_ohlcv_bar(dec("100"), dec("115"), dec("98"), dec("112"));
    let b2 = make_ohlcv_bar(dec("112"), dec("128"), dec("110"), dec("125"));
    let b3 = make_ohlcv_bar(dec("125"), dec("142"), dec("123"), dec("140"));
    assert!(OhlcvBar::three_white_soldiers(&[b1, b2, b3]));
}

#[test]
fn test_three_white_soldiers_false_for_bearish_bar_in_sequence() {
    // b2 is bearish (close < open)
    let b1 = make_ohlcv_bar(dec("100"), dec("115"), dec("98"), dec("112"));
    let b2 = make_ohlcv_bar(dec("115"), dec("120"), dec("105"), dec("108"));
    let b3 = make_ohlcv_bar(dec("108"), dec("130"), dec("106"), dec("128"));
    assert!(!OhlcvBar::three_white_soldiers(&[b1, b2, b3]));
}

#[test]
fn test_three_black_crows_false_for_fewer_than_3_bars() {
    let b = make_ohlcv_bar(dec("100"), dec("110"), dec("90"), dec("95"));
    assert!(!OhlcvBar::three_black_crows(&[b]));
}

#[test]
fn test_three_black_crows_true_for_classic_pattern() {
    let b1 = make_ohlcv_bar(dec("140"), dec("142"), dec("110"), dec("112"));
    let b2 = make_ohlcv_bar(dec("112"), dec("114"), dec("95"), dec("97"));
    let b3 = make_ohlcv_bar(dec("97"), dec("99"), dec("80"), dec("82"));
    assert!(OhlcvBar::three_black_crows(&[b1, b2, b3]));
}

#[test]
fn test_three_black_crows_false_for_bullish_bar_in_sequence() {
    // b2 is bullish
    let b1 = make_ohlcv_bar(dec("140"), dec("142"), dec("110"), dec("112"));
    let b2 = make_ohlcv_bar(dec("108"), dec("120"), dec("106"), dec("118"));
    let b3 = make_ohlcv_bar(dec("115"), dec("116"), dec("90"), dec("92"));
    assert!(!OhlcvBar::three_black_crows(&[b1, b2, b3]));
}

#[test]
fn test_is_trending_up_false_for_empty() {
    assert!(!OhlcvBar::is_trending_up(&[], 3));
}

#[test]
fn test_is_trending_up_false_for_n_less_than_2() {
    let b = make_ohlcv_bar(dec("100"), dec("110"), dec("90"), dec("105"));
    assert!(!OhlcvBar::is_trending_up(&[b], 1));
}

#[test]
fn test_is_trending_up_true_for_rising_closes() {
    let b1 = make_ohlcv_bar(dec("100"), dec("105"), dec("98"), dec("102"));
    let b2 = make_ohlcv_bar(dec("102"), dec("110"), dec("100"), dec("107"));
    let b3 = make_ohlcv_bar(dec("107"), dec("115"), dec("105"), dec("112"));
    assert!(OhlcvBar::is_trending_up(&[b1, b2, b3], 3));
}

#[test]
fn test_is_trending_down_true_for_falling_closes() {
    let b1 = make_ohlcv_bar(dec("112"), dec("115"), dec("105"), dec("110"));
    let b2 = make_ohlcv_bar(dec("110"), dec("112"), dec("100"), dec("105"));
    let b3 = make_ohlcv_bar(dec("105"), dec("108"), dec("95"), dec("98"));
    assert!(OhlcvBar::is_trending_down(&[b1, b2, b3], 3));
}
