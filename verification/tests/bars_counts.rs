use fin_stream::bar::OhlcvBar;
use fin_stream::decimal::Decimal;
use fin_stream::timeframe::Timeframe;
use rust_decimal::prelude::ToPrimitive;

/// The number that a literal writes.
fn dec(text: &str) -> Decimal {
    let d: rust_decimal::Decimal = text.parse().unwrap();
    Decimal::from_parts(d.mantissa(), d.scale()).unwrap()
}

fn float(d: Decimal) -> f64 {
    let (mantissa, scale) = d.parts();
    rust_decimal::Decimal::from_i128_with_scale(mantissa, scale).to_f64().unwrap()
}

fn make_ohlcv_bar(open: Decimal, high: Decimal, low: Decimal, close: Decimal) -> OhlcvBar {
    OhlcvBar {
        symbol: "X".into(),
        timeframe: Timeframe::Minutes(1),
        open,
        high,
        low,
        close,
        volume: dec("1"),
        bar_start_ms: 0,
        trade_count: 1,
        is_complete: false,
        is_gap_fill: false,
        vwap: None,
    }
}

#[test]
fn test_bullish_count_zero_for_empty_slice() {
    assert_eq!(OhlcvBar::bullish_count(&[]), 0);
}

#[test]
fn test_bullish_count_all_bullish() {
    let b1 = make_ohlcv_bar(dec("100"), dec("110"), dec("90"), dec("108")); // bullish
    let b2 = make_ohlcv_bar(dec("108"), dec("120"), dec("105"), dec("115")); // bullish
    assert_eq!(OhlcvBar::bullish_count(&[b1, b2]), 2);
}

#[test]
fn test_bearish_count_correct() {
    let bull = make_ohlcv_bar(dec("100"), dec("110"), dec("90"), dec("108"));
    let bear = make_ohlcv_bar(dec("108"), dec("110"), dec("90"), dec("95"));
    let doji = make_ohlcv_bar(dec("100"), dec("110"), dec("90"), dec("100"));
    assert_eq!(OhlcvBar::bearish_count(&[bull, bear, doji]), 1);
}

#[test]
fn test_bullish_streak_zero_for_empty_slice() {
    assert_eq!(OhlcvBar::bullish_streak(&[]), 0);
}

#[test]
fn test_bullish_streak_zero_when_last_bar_bearish() {
    let bull = make_ohlcv_bar(dec("100"), dec("110"), dec("90"), dec("108"));
    let bear = make_ohlcv_bar(dec("108"), dec("110"), dec("90"), dec("95"));
    assert_eq!(OhlcvBar::bullish_streak(&[bull, bear]), 0);
}

#[test]
fn test_bullish_streak_counts_consecutive_tail() {
    let bear = make_ohlcv_bar(dec("100"), dec("110"), dec("90"), dec("90")); // bearish
    let bull1 = make_ohlcv_bar(dec("90"), dec("105"), dec("88"), dec("102")); // bullish
    let bull2 = make_ohlcv_bar(dec("102"), dec("115"), dec("100"), dec("110")); // bullish
    assert_eq!(OhlcvBar::bullish_streak(&[bear, bull1, bull2]), 2);
}

#[test]
fn test_bearish_streak_counts_consecutive_tail() {
    let bull = make_ohlcv_bar(dec("100"), dec("110"), dec("90"), dec("108")); // bullish
    let bear1 = make_ohlcv_bar(dec("108"), dec("109"), dec("90"), dec("95")); // bearish
    let bear2 = make_ohlcv_bar(dec("95"), dec("96"), dec("80"), dec("85")); // bearish
    assert_eq!(OhlcvBar::bearish_streak(&[bull, bear1, bear2]), 2);
}

#[test]
fn test_breakout_count_zero_for_empty_slice() {
    assert_eq!(OhlcvBar::breakout_count(&[]), 0);
}

#[test]
fn test_breakout_count_zero_for_single_bar() {
    assert_eq!(OhlcvBar::breakout_count(&[make_ohlcv_bar(dec("100"), dec("110"), dec("90"), dec("105"))]), 0);
}

#[test]
fn test_breakout_count_detects_close_above_prev_high() {
    // b1: high=110; b2: close=115 > 110 → breakout
    let b1 = make_ohlcv_bar(dec("100"), dec("110"), dec("90"), dec("108"));
    let b2 = make_ohlcv_bar(dec("108"), dec("120"), dec("105"), dec("115"));
    assert_eq!(OhlcvBar::breakout_count(&[b1, b2]), 1);
}

#[test]
fn test_breakout_count_zero_when_close_at_prev_high() {
    // close == prev high → not a strict breakout
    let b1 = make_ohlcv_bar(dec("100"), dec("110"), dec("90"), dec("108"));
    let b2 = make_ohlcv_bar(dec("108"), dec("115"), dec("105"), dec("110"));
    assert_eq!(OhlcvBar::breakout_count(&[b1, b2]), 0);
}

#[test]
fn test_doji_count_zero_for_empty_slice() {
    assert_eq!(OhlcvBar::doji_count(&[], dec("0.001")), 0);
}

#[test]
fn test_doji_count_detects_doji_bars() {
    let doji = make_ohlcv_bar(dec("100"), dec("110"), dec("90"), dec("100")); // body=0
    let non_doji = make_ohlcv_bar(dec("100"), dec("110"), dec("90"), dec("110")); // body=10
    assert_eq!(OhlcvBar::doji_count(&[doji, non_doji], dec("1")), 1);
}

#[test]
fn test_close_above_mid_count_zero_for_empty_slice() {
    assert_eq!(OhlcvBar::close_above_mid_count(&[]), 0);
}

#[test]
fn test_close_above_mid_count_correct() {
    let above_mid = make_ohlcv_bar(dec("100"), dec("120"), dec("80"), dec("110")); // mid=100, close=110 > 100
    let at_mid = make_ohlcv_bar(dec("100"), dec("120"), dec("80"), dec("100")); // mid=100, close=100 not > 100
    let below_mid = make_ohlcv_bar(dec("100"), dec("120"), dec("80"), dec("85")); // mid=100, close=85 < 100
    assert_eq!(OhlcvBar::close_above_mid_count(&[above_mid, at_mid, below_mid]), 1);
}

#[test]
fn test_rising_close_count_zero_for_empty_slice() {
    assert_eq!(OhlcvBar::rising_close_count(&[]), 0);
}

#[test]
fn test_rising_close_count_zero_for_single_bar() {
    assert_eq!(OhlcvBar::rising_close_count(&[make_ohlcv_bar(dec("100"), dec("110"), dec("90"), dec("105"))]), 0);
}

#[test]
fn test_rising_close_count_correct() {
    let b1 = make_ohlcv_bar(dec("100"), dec("110"), dec("90"), dec("100"));
    let b2 = make_ohlcv_bar(dec("100"), dec("115"), dec("90"), dec("110")); // close > prev
    let b3 = make_ohlcv_bar(dec("100"), dec("115"), dec("90"), dec("105")); // close < prev
    let b4 = make_ohlcv_bar(dec("100"), dec("120"), dec("90"), dec("115")); // close > prev
    assert_eq!(OhlcvBar::rising_close_count(&[b1, b2, b3, b4]), 2);
}

#[test]
fn test_gap_bars_count_zero_for_empty_slice() {
    assert_eq!(OhlcvBar::gap_bars_count(&[]), 0);
}

#[test]
fn test_gap_bars_count_zero_when_no_gaps() {
    // b1 close=100, b2 open=100 → no gap
    let b1 = make_ohlcv_bar(dec("90"), dec("105"), dec("88"), dec("100"));
    let b2 = make_ohlcv_bar(dec("100"), dec("115"), dec("98"), dec("110"));
    assert_eq!(OhlcvBar::gap_bars_count(&[b1, b2]), 0);
}

#[test]
fn test_gap_bars_count_counts_all_gaps() {
    let b1 = make_ohlcv_bar(dec("90"), dec("105"), dec("88"), dec("100"));
    let b2 = make_ohlcv_bar(dec("105"), dec("115"), dec("103"), dec("110")); // gap: open=105 != 100
    let b3 = make_ohlcv_bar(dec("110"), dec("120"), dec("108"), dec("115")); // no gap
    let b4 = make_ohlcv_bar(dec("120"), dec("130"), dec("118"), dec("128")); // gap: open=120 != 115
    assert_eq!(OhlcvBar::gap_bars_count(&[b1, b2, b3, b4]), 2);
}

#[test]
fn test_consecutive_highs_zero_for_single_bar() {
    let b = make_ohlcv_bar(dec("100"), dec("110"), dec("90"), dec("105"));
    assert_eq!(OhlcvBar::consecutive_highs(&[b]), 0);
}

#[test]
fn test_consecutive_highs_counts_trailing_highs() {
    // bars with rising highs: 110, 120, 130 → 2 consecutive from end
    let b1 = make_ohlcv_bar(dec("95"), dec("110"), dec("90"), dec("105"));
    let b2 = make_ohlcv_bar(dec("105"), dec("120"), dec("103"), dec("115"));
    let b3 = make_ohlcv_bar(dec("115"), dec("130"), dec("113"), dec("125"));
    assert_eq!(OhlcvBar::consecutive_highs(&[b1, b2, b3]), 2);
}

#[test]
fn test_consecutive_lows_counts_trailing_lows() {
    // bars with falling lows: 90, 80, 70 → 2 consecutive from end
    let b1 = make_ohlcv_bar(dec("100"), dec("110"), dec("90"), dec("105"));
    let b2 = make_ohlcv_bar(dec("95"), dec("108"), dec("80"), dec("100"));
    let b3 = make_ohlcv_bar(dec("90"), dec("102"), dec("70"), dec("95"));
    assert_eq!(OhlcvBar::consecutive_lows(&[b1, b2, b3]), 2);
}

#[test]
fn test_bullish_count_r67_correct() {
    let b1 = make_ohlcv_bar(dec("100"), dec("115"), dec("98"), dec("112")); // bullish
    let b2 = make_ohlcv_bar(dec("112"), dec("120"), dec("105"), dec("108")); // bearish
    let b3 = make_ohlcv_bar(dec("108"), dec("125"), dec("106"), dec("120")); // bullish
    assert_eq!(OhlcvBar::bullish_count(&[b1, b2, b3]), 2);
}

#[test]
fn test_bearish_count_r67_correct() {
    let b1 = make_ohlcv_bar(dec("115"), dec("118"), dec("100"), dec("105")); // bearish
    let b2 = make_ohlcv_bar(dec("105"), dec("115"), dec("103"), dec("112")); // bullish
    assert_eq!(OhlcvBar::bearish_count(&[b1, b2]), 1);
}

#[test]
fn test_close_above_open_count_zero_for_empty() {
    assert_eq!(OhlcvBar::close_above_open_count(&[]), 0);
}

#[test]
fn test_close_above_open_count_correct() {
    // bar1: bullish (close > open), bar2: bearish
    let b1 = make_ohlcv_bar(dec("100"), dec("110"), dec("95"), dec("108"));
    let b2 = make_ohlcv_bar(dec("110"), dec("115"), dec("100"), dec("102"));
    assert_eq!(OhlcvBar::close_above_open_count(&[b1, b2]), 1);
}

#[test]
fn test_range_expansion_count_zero_for_single_bar() {
    let b = make_ohlcv_bar(dec("100"), dec("110"), dec("90"), dec("105"));
    assert_eq!(OhlcvBar::range_expansion_count(&[b]), 0);
}

#[test]
fn test_range_expansion_count_correct() {
    // b1 range=20, b2 range=30 → expansion
    let b1 = make_ohlcv_bar(dec("100"), dec("110"), dec("90"), dec("105"));
    let b2 = make_ohlcv_bar(dec("105"), dec("120"), dec("90"), dec("110"));
    assert_eq!(OhlcvBar::range_expansion_count(&[b1, b2]), 1);
}

#[test]
fn test_gap_count_zero_for_single_bar() {
    let b = make_ohlcv_bar(dec("100"), dec("110"), dec("90"), dec("105"));
    assert_eq!(OhlcvBar::gap_count(&[b]), 0);
}

#[test]
fn test_gap_count_detects_gap() {
    let b1 = make_ohlcv_bar(dec("100"), dec("110"), dec("90"), dec("105"));
    // b2 opens at 108, prev close=105 → gap
    let b2 = make_ohlcv_bar(dec("108"), dec("115"), dec("106"), dec("112"));
    assert_eq!(OhlcvBar::gap_count(&[b1, b2]), 1);
}

#[test]
fn test_gap_count_zero_when_open_equals_close() {
    let b1 = make_ohlcv_bar(dec("100"), dec("110"), dec("90"), dec("105"));
    // b2 opens at exactly prev close=105
    let b2 = make_ohlcv_bar(dec("105"), dec("115"), dec("103"), dec("112"));
    assert_eq!(OhlcvBar::gap_count(&[b1, b2]), 0);
}

#[test]
fn test_close_above_high_ma_zero_for_too_few_bars() {
    let b = make_ohlcv_bar(dec("100"), dec("110"), dec("90"), dec("105"));
    assert_eq!(OhlcvBar::close_above_high_ma(&[b], 2), 0);
}

#[test]
fn test_close_above_high_ma_detects_breakout() {
    // 2-bar high MA = (110+120)/2=115; close of b2=118 > 115
    let b1 = make_ohlcv_bar(dec("100"), dec("110"), dec("90"), dec("105"));
    let b2 = make_ohlcv_bar(dec("110"), dec("120"), dec("108"), dec("118"));
    assert_eq!(OhlcvBar::close_above_high_ma(&[b1, b2], 2), 1);
}

#[test]
fn test_max_consecutive_gains_zero_for_single_bar() {
    let b = make_ohlcv_bar(dec("100"), dec("110"), dec("90"), dec("105"));
    assert_eq!(OhlcvBar::max_consecutive_gains(&[b]), 0);
}

#[test]
fn test_max_consecutive_gains_correct() {
    // closes: 100, 105, 110, 108, 115 → gains: 1,1,0,1 → max run=2
    let b1 = make_ohlcv_bar(dec("98"), dec("102"), dec("96"), dec("100"));
    let b2 = make_ohlcv_bar(dec("100"), dec("108"), dec("99"), dec("105"));
    let b3 = make_ohlcv_bar(dec("105"), dec("112"), dec("104"), dec("110"));
    let b4 = make_ohlcv_bar(dec("110"), dec("111"), dec("105"), dec("108"));
    let b5 = make_ohlcv_bar(dec("108"), dec("116"), dec("107"), dec("115"));
    assert_eq!(OhlcvBar::max_consecutive_gains(&[b1, b2, b3, b4, b5]), 2);
}

#[test]
fn test_max_consecutive_losses_correct() {
    // closes: 110, 105, 100, 108 → losses: 1,1,0 → max run=2
    let b1 = make_ohlcv_bar(dec("112"), dec("115"), dec("108"), dec("110"));
    let b2 = make_ohlcv_bar(dec("110"), dec("112"), dec("103"), dec("105"));
    let b3 = make_ohlcv_bar(dec("105"), dec("108"), dec("98"), dec("100"));
    let b4 = make_ohlcv_bar(dec("100"), dec("112"), dec("98"), dec("108"));
    assert_eq!(OhlcvBar::max_consecutive_losses(&[b1, b2, b3, b4]), 2);
}

#[test]
fn test_close_reversion_count_zero_for_single_bar() {
    let b = make_ohlcv_bar(dec("100"), dec("110"), dec("90"), dec("105"));
    assert_eq!(OhlcvBar::close_reversion_count(&[b]), 0);
}

#[test]
fn test_close_reversion_count_returns_usize() {
    let b1 = make_ohlcv_bar(dec("98"), dec("102"), dec("96"), dec("100"));
    let b2 = make_ohlcv_bar(dec("100"), dec("112"), dec("99"), dec("110"));
    let b3 = make_ohlcv_bar(dec("110"), dec("112"), dec("103"), dec("105"));
    // Just test it runs without panic
    let _ = OhlcvBar::close_reversion_count(&[b1, b2, b3]);
}

#[test]
fn test_higher_highs_count_zero_for_single_bar() {
    let b = make_ohlcv_bar(dec("100"), dec("110"), dec("90"), dec("105"));
    assert_eq!(OhlcvBar::higher_highs_count(&[b]), 0);
}

#[test]
fn test_higher_highs_count_correct() {
    let b1 = make_ohlcv_bar(dec("100"), dec("110"), dec("90"), dec("105"));
    let b2 = make_ohlcv_bar(dec("105"), dec("120"), dec("103"), dec("115")); // high 120 > 110
    let b3 = make_ohlcv_bar(dec("115"), dec("115"), dec("110"), dec("112")); // high 115 < 120
    assert_eq!(OhlcvBar::higher_highs_count(&[b1, b2, b3]), 1);
}

#[test]
fn test_lower_lows_count_correct() {
    let b1 = make_ohlcv_bar(dec("100"), dec("110"), dec("90"), dec("105"));
    let b2 = make_ohlcv_bar(dec("105"), dec("112"), dec("85"), dec("108")); // low 85 < 90
    let b3 = make_ohlcv_bar(dec("108"), dec("115"), dec("95"), dec("112")); // low 95 > 85
    assert_eq!(OhlcvBar::lower_lows_count(&[b1, b2, b3]), 1);
}

#[test]
fn test_direction_reversal_count_zero_for_single_bar() {
    let bar = make_ohlcv_bar(dec("100"), dec("110"), dec("90"), dec("105"));
    assert_eq!(OhlcvBar::direction_reversal_count(&[bar]), 0);
}

#[test]
fn test_direction_reversal_count_zero_for_all_bullish() {
    let bars = vec![
        make_ohlcv_bar(dec("100"), dec("110"), dec("90"), dec("105")),
        make_ohlcv_bar(dec("105"), dec("115"), dec("95"), dec("112")),
    ];
    assert_eq!(OhlcvBar::direction_reversal_count(&bars), 0);
}

#[test]
fn test_direction_reversal_count_two_for_alternating() {
    let bull = make_ohlcv_bar(dec("100"), dec("110"), dec("90"), dec("108"));
    let bear = make_ohlcv_bar(dec("108"), dec("112"), dec("95"), dec("102"));
    let bull2 = make_ohlcv_bar(dec("102"), dec("115"), dec("98"), dec("110"));
    let bear2 = make_ohlcv_bar(dec("110"), dec("115"), dec("100"), dec("104"));
    assert_eq!(OhlcvBar::direction_reversal_count(&[bull, bear, bull2, bear2]), 3);
}

#[test]
fn test_complete_bar_count_zero_for_incomplete() {
    let b = make_ohlcv_bar(dec("100"), dec("110"), dec("90"), dec("105"));
    assert_eq!(OhlcvBar::complete_bar_count(&[b]), 0);
}

#[test]
fn test_above_avg_volume_count_zero_for_empty() {
    assert_eq!(OhlcvBar::above_avg_volume_count(&[]), 0);
}

#[test]
fn test_continuation_bar_count_zero_for_single() {
    let b = make_ohlcv_bar(dec("100"), dec("110"), dec("90"), dec("105"));
    assert_eq!(OhlcvBar::continuation_bar_count(&[b]), 0);
}

#[test]
fn test_new_high_count_zero_for_single() {
    let b = make_ohlcv_bar(dec("100"), dec("110"), dec("90"), dec("105"));
    assert_eq!(OhlcvBar::new_high_count(&[b]), 0);
}

#[test]
fn test_new_high_count_correct() {
    let b1 = make_ohlcv_bar(dec("100"), dec("110"), dec("90"), dec("105"));
    let b2 = make_ohlcv_bar(dec("100"), dec("120"), dec("90"), dec("115"));
    let b3 = make_ohlcv_bar(dec("100"), dec("115"), dec("90"), dec("110"));
    assert_eq!(OhlcvBar::new_high_count(&[b1, b2, b3]), 1);
}

#[test]
fn test_new_low_count_zero_for_single() {
    let b = make_ohlcv_bar(dec("100"), dec("110"), dec("90"), dec("105"));
    assert_eq!(OhlcvBar::new_low_count(&[b]), 0);
}

#[test]
fn test_close_cluster_count_zero_for_single_bar() {
    let b = make_ohlcv_bar(dec("100"), dec("110"), dec("90"), dec("105"));
    assert_eq!(OhlcvBar::close_cluster_count(&[b]), 0);
}

#[test]
fn test_max_consecutive_up_bars_zero_for_empty() {
    assert_eq!(OhlcvBar::max_consecutive_up_bars(&[]), 0);
}

#[test]
fn test_max_consecutive_up_bars_zero_for_all_down() {
    let b = make_ohlcv_bar(dec("105"), dec("110"), dec("90"), dec("100")); // close < open
    assert_eq!(OhlcvBar::max_consecutive_up_bars(&[b]), 0);
}

#[test]
fn test_max_consecutive_up_bars_correct_run() {
    let up = make_ohlcv_bar(dec("100"), dec("110"), dec("90"), dec("105")); // up
    let dn = make_ohlcv_bar(dec("105"), dec("115"), dec("90"), dec("100")); // down
    let up2 = make_ohlcv_bar(dec("100"), dec("110"), dec("90"), dec("108")); // up
    let up3 = make_ohlcv_bar(dec("108"), dec("120"), dec("100"), dec("115")); // up
    assert_eq!(OhlcvBar::max_consecutive_up_bars(&[up, dn, up2, up3]), 2);
}

#[test]
fn test_gap_up_count_zero_for_single_bar() {
    let b = make_ohlcv_bar(dec("100"), dec("110"), dec("90"), dec("105"));
    assert_eq!(OhlcvBar::gap_up_count(&[b]), 0);
}

#[test]
fn test_gap_up_count_one_for_gap() {
    // bar1 closes at 105, bar2 opens at 110 → gap up
    let b1 = make_ohlcv_bar(dec("100"), dec("110"), dec("90"), dec("105"));
    let b2 = make_ohlcv_bar(dec("110"), dec("120"), dec("105"), dec("115"));
    assert_eq!(OhlcvBar::gap_up_count(&[b1, b2]), 1);
}

#[test]
fn test_gap_down_count_zero_for_single_bar() {
    let b = make_ohlcv_bar(dec("100"), dec("110"), dec("90"), dec("105"));
    assert_eq!(OhlcvBar::gap_down_count(&[b]), 0);
}

#[test]
fn test_gap_down_count_one_for_gap() {
    // bar1 closes at 105, bar2 opens at 95 → gap down
    let b1 = make_ohlcv_bar(dec("100"), dec("110"), dec("90"), dec("105"));
    let b2 = make_ohlcv_bar(dec("95"), dec("100"), dec("85"), dec("90"));
    assert_eq!(OhlcvBar::gap_down_count(&[b1, b2]), 1);
}

#[test]
fn test_close_above_open_streak_zero_for_empty() {
    assert_eq!(OhlcvBar::close_above_open_streak(&[]), 0);
}

#[test]
fn test_close_above_open_streak_two_for_two_up_bars() {
    let b1 = make_ohlcv_bar(dec("100"), dec("110"), dec("90"), dec("105")); // up
    let b2 = make_ohlcv_bar(dec("105"), dec("115"), dec("95"), dec("110")); // up
    let b3 = make_ohlcv_bar(dec("110"), dec("120"), dec("100"), dec("108")); // down
    assert_eq!(OhlcvBar::close_above_open_streak(&[b1, b2, b3]), 2);
}

#[test]
fn test_longest_bearish_streak_none_for_empty() {
    assert!(OhlcvBar::longest_bearish_streak(&[]).is_none());
}

#[test]
fn test_longest_bearish_streak_basic() {
    let up = make_ohlcv_bar(dec("90"), dec("110"), dec("85"), dec("105"));
    let dn = make_ohlcv_bar(dec("105"), dec("110"), dec("85"), dec("90"));
    // up, dn, dn, up → longest bearish = 2
    let streak = OhlcvBar::longest_bearish_streak(&[up.clone(), dn.clone(), dn.clone(), up.clone()]).unwrap();
    assert_eq!(streak, 2);
}

#[test]
fn test_narrow_body_count_none_for_empty() {
    assert!(OhlcvBar::narrow_body_count(&[]).is_none());
}

#[test]
fn test_narrow_body_count_full_body_is_not_narrow() {
    // open=low=90, close=high=110 → body/range = 1.0 → not narrow
    let b = make_ohlcv_bar(dec("90"), dec("110"), dec("90"), dec("110"));
    let c = OhlcvBar::narrow_body_count(&[b]).unwrap();
    assert_eq!(c, 0);
}

#[test]
fn test_down_gap_count_none_for_single_bar() {
    let b = make_ohlcv_bar(dec("90"), dec("110"), dec("85"), dec("100"));
    assert!(OhlcvBar::down_gap_count(&[b]).is_none());
}

#[test]
fn test_down_gap_count_detects_gap_down() {
    // b1 closes at 100, b2 opens at 90 < 100 → 1 down gap
    let b1 = make_ohlcv_bar(dec("90"), dec("110"), dec("85"), dec("100"));
    let b2 = make_ohlcv_bar(dec("90"), dec("95"), dec("85"), dec("93"));
    let c = OhlcvBar::down_gap_count(&[b1, b2]).unwrap();
    assert_eq!(c, 1);
}

#[test]
fn test_inside_bar_count_none_for_single_bar() {
    let b = make_ohlcv_bar(dec("90"), dec("110"), dec("85"), dec("100"));
    assert!(OhlcvBar::inside_bar_count(&[b]).is_none());
}

#[test]
fn test_inside_bar_count_detects_inside_bar() {
    // b2 contained within b1
    let b1 = make_ohlcv_bar(dec("85"), dec("115"), dec("80"), dec("100"));
    let b2 = make_ohlcv_bar(dec("90"), dec("110"), dec("85"), dec("105"));
    let c = OhlcvBar::inside_bar_count(&[b1, b2]).unwrap();
    assert_eq!(c, 1);
}

#[test]
fn test_bar_count_above_avg_range_none_for_empty() {
    assert!(OhlcvBar::bar_count_above_avg_range(&[]).is_none());
}

#[test]
fn test_bar_count_above_avg_range_basic() {
    // range 20, 40 → mean=30 → only 40 > 30 → count=1
    let b1 = make_ohlcv_bar(dec("90"), dec("110"), dec("90"), dec("100")); // range=20
    let b2 = make_ohlcv_bar(dec("90"), dec("130"), dec("90"), dec("120")); // range=40
    let c = OhlcvBar::bar_count_above_avg_range(&[b1, b2]).unwrap();
    assert_eq!(c, 1);
}

#[test]
fn test_price_oscillation_count_none_for_two_bars() {
    let b1 = make_ohlcv_bar(dec("90"), dec("110"), dec("85"), dec("100"));
    let b2 = make_ohlcv_bar(dec("100"), dec("115"), dec("95"), dec("110"));
    assert!(OhlcvBar::price_oscillation_count(&[b1, b2]).is_none());
}

#[test]
fn test_price_oscillation_count_basic() {
    let up = make_ohlcv_bar(dec("90"), dec("110"), dec("85"), dec("105"));
    let dn = make_ohlcv_bar(dec("105"), dec("110"), dec("85"), dec("90"));
    // up, dn, up → 1 reversal (dn→up)
    let c = OhlcvBar::price_oscillation_count(&[up.clone(), dn.clone(), up.clone()]).unwrap();
    assert_eq!(c, 1);
}

#[test]
fn test_consecutive_flat_count_none_for_empty() {
    assert!(OhlcvBar::consecutive_flat_count(&[]).is_none());
}

#[test]
fn test_consecutive_flat_count_zero_for_full_body() {
    let b = make_ohlcv_bar(dec("90"), dec("110"), dec("90"), dec("110"));
    // body/range = 1.0 → not flat
    let c = OhlcvBar::consecutive_flat_count(&[b]).unwrap();
    assert_eq!(c, 0);
}

#[test]
fn test_bullish_engulfing_count_none_for_single() {
    let b = make_ohlcv_bar(dec("100"), dec("110"), dec("90"), dec("95"));
    assert!(OhlcvBar::bullish_engulfing_count(&[b]).is_none());
}

#[test]
fn test_bullish_engulfing_count_basic() {
    // bearish bar: open=110, close=95; bullish engulfing: open=90, close=115
    let bearish = make_ohlcv_bar(dec("110"), dec("115"), dec("90"), dec("95"));
    let engulf = make_ohlcv_bar(dec("90"), dec("120"), dec("85"), dec("115"));
    let count = OhlcvBar::bullish_engulfing_count(&[bearish, engulf]).unwrap();
    assert_eq!(count, 1);
}

#[test]
fn test_gap_fill_count_none_for_single() {
    let b = make_ohlcv_bar(dec("100"), dec("110"), dec("90"), dec("105"));
    assert!(OhlcvBar::gap_fill_count(&[b]).is_none());
}

#[test]
fn test_gap_fill_count_basic() {
    // prev: high=110; curr opens at 115 (gap up) and closes at 108 (back inside prev high)
    let prev = make_ohlcv_bar(dec("100"), dec("110"), dec("90"), dec("105"));
    let curr = make_ohlcv_bar(dec("115"), dec("120"), dec("100"), dec("108"));
    let c = OhlcvBar::gap_fill_count(&[prev, curr]).unwrap();
    assert_eq!(c, 1);
}

#[test]
fn test_close_above_midpoint_count_none_for_empty() {
    assert!(OhlcvBar::close_above_midpoint_count(&[]).is_none());
}

#[test]
fn test_close_above_midpoint_count_basic() {
    // midpoint=(110+90)/2=100; close=105>100 → count=1
    let b = make_ohlcv_bar(dec("100"), dec("110"), dec("90"), dec("105"));
    let c = OhlcvBar::close_above_midpoint_count(&[b]).unwrap();
    assert_eq!(c, 1);
}

#[test]
fn test_up_gap_count_none_for_single() {
    let b = make_ohlcv_bar(dec("100"), dec("110"), dec("90"), dec("105"));
    assert!(OhlcvBar::up_gap_count(&[b]).is_none());
}

#[test]
fn test_up_gap_count_basic() {
    // prev high=110; curr open=115 > 110 → gap up
    let prev = make_ohlcv_bar(dec("100"), dec("110"), dec("90"), dec("105"));
    let curr = make_ohlcv_bar(dec("115"), dec("120"), dec("112"), dec("118"));
    let c = OhlcvBar::up_gap_count(&[prev, curr]).unwrap();
    assert_eq!(c, 1);
}

#[test]
fn test_close_cross_open_count_none_for_single() {
    let b = make_ohlcv_bar(dec("100"), dec("110"), dec("90"), dec("105"));
    assert!(OhlcvBar::close_cross_open_count(&[b]).is_none());
}

#[test]
fn test_close_cross_open_count_zero_for_no_cross() {
    // both bars close above open of prev bar — no crossing occurs
    let b1 = make_ohlcv_bar(dec("100"), dec("115"), dec("90"), dec("112"));
    let b2 = make_ohlcv_bar(dec("110"), dec("120"), dec("105"), dec("118"));
    let c = OhlcvBar::close_cross_open_count(&[b1, b2]).unwrap();
    assert_eq!(c, 0);
}

#[test]
fn test_open_above_prev_close_none_for_single() {
    let b = make_ohlcv_bar(dec("100"), dec("110"), dec("90"), dec("105"));
    assert!(OhlcvBar::open_above_prev_close(&[b]).is_none());
}

#[test]
fn test_open_above_prev_close_basic() {
    // prev close=105; curr open=110 > 105 → count=1
    let prev = make_ohlcv_bar(dec("100"), dec("110"), dec("90"), dec("105"));
    let curr = make_ohlcv_bar(dec("110"), dec("120"), dec("105"), dec("115"));
    let c = OhlcvBar::open_above_prev_close(&[prev, curr]).unwrap();
    assert_eq!(c, 1);
}

#[test]
fn test_close_below_prev_open_none_for_single() {
    let b = make_ohlcv_bar(dec("100"), dec("110"), dec("90"), dec("105"));
    assert!(OhlcvBar::close_below_prev_open(&[b]).is_none());
}

#[test]
fn test_close_below_prev_open_basic() {
    // prev open=100; curr close=95 < 100 → count=1
    let prev = make_ohlcv_bar(dec("100"), dec("115"), dec("90"), dec("110"));
    let curr = make_ohlcv_bar(dec("105"), dec("110"), dec("88"), dec("95"));
    let c = OhlcvBar::close_below_prev_open(&[prev, curr]).unwrap();
    assert_eq!(c, 1);
}

#[test]
fn test_volume_above_avg_count_none_for_empty() {
    assert!(OhlcvBar::volume_above_avg_count(&[]).is_none());
}

#[test]
fn test_volume_above_avg_count_basic() {
    // all same volume → none above mean → 0
    let b1 = make_ohlcv_bar(dec("100"), dec("110"), dec("90"), dec("105"));
    let b2 = make_ohlcv_bar(dec("100"), dec("115"), dec("95"), dec("110"));
    let c = OhlcvBar::volume_above_avg_count(&[b1, b2]).unwrap();
    assert_eq!(c, 0);
}

#[test]
fn test_close_oscillation_count_none_for_two() {
    let bars = [
        make_ohlcv_bar(dec("100"), dec("110"), dec("90"), dec("105")),
        make_ohlcv_bar(dec("105"), dec("115"), dec("100"), dec("110")),
    ];
    assert!(OhlcvBar::close_oscillation_count(&bars).is_none());
}

#[test]
fn test_close_oscillation_count_alternating() {
    // close: 100, 110, 105, 112 → diffs: +,-, + → 2 direction changes
    let b1 = make_ohlcv_bar(dec("100"), dec("110"), dec("90"), dec("100"));
    let b2 = make_ohlcv_bar(dec("100"), dec("115"), dec("98"), dec("110"));
    let b3 = make_ohlcv_bar(dec("109"), dec("112"), dec("100"), dec("105"));
    let b4 = make_ohlcv_bar(dec("105"), dec("118"), dec("102"), dec("112"));
    let c = OhlcvBar::close_oscillation_count(&[b1, b2, b3, b4]).unwrap();
    assert_eq!(c, 2);
}

#[test]
fn test_bar_close_momentum_none_for_single() {
    assert!(OhlcvBar::bar_close_momentum(&[make_ohlcv_bar(dec("100"), dec("110"), dec("90"), dec("105"))]).is_none());
}

#[test]
fn test_bar_close_momentum_all_up() {
    let b1 = make_ohlcv_bar(dec("100"), dec("110"), dec("90"), dec("100"));
    let b2 = make_ohlcv_bar(dec("100"), dec("115"), dec("95"), dec("105"));
    let b3 = make_ohlcv_bar(dec("105"), dec("120"), dec("100"), dec("115"));
    let m = OhlcvBar::bar_close_momentum(&[b1, b2, b3]).unwrap() as f64;
    assert!((m - 2.0).abs() < 1e-9, "expected 2.0 for 2 up moves, got {}", m);
}

#[test]
fn test_bar_open_close_momentum_none_for_empty() {
    assert!(OhlcvBar::bar_open_close_momentum(&[]).is_none());
}

#[test]
fn test_bar_open_close_momentum_all_bullish() {
    let b1 = make_ohlcv_bar(dec("100"), dec("115"), dec("85"), dec("110"));
    let b2 = make_ohlcv_bar(dec("110"), dec("125"), dec("95"), dec("120"));
    let m = OhlcvBar::bar_open_close_momentum(&[b1, b2]).unwrap() as f64;
    assert!((m - 2.0).abs() < 1e-9, "expected 2.0, got {}", m);
}

#[test]
fn test_bar_body_count_none_for_empty() {
    assert!(OhlcvBar::bar_body_count(&[]).is_none());
}

#[test]
fn test_bar_body_count_all_doji() {
    let b = make_ohlcv_bar(dec("100"), dec("110"), dec("90"), dec("100"));
    let c = OhlcvBar::bar_body_count(&[b]).unwrap();
    assert_eq!(c, 0);
}
