use fin_stream::aggregator::OhlcvAggregator;
use fin_stream::decimal::Decimal;
use fin_stream::error::StreamError;
use fin_stream::fraction::Fraction;
use fin_stream::tick::{Exchange, NormalizedTick, TradeSide};
use fin_stream::timeframe::Timeframe;
use rust_decimal::prelude::ToPrimitive;

/// The number that a literal writes.
fn dec(text: &str) -> Decimal {
    let d: rust_decimal::Decimal = text.parse().unwrap();
    Decimal::from_parts(d.mantissa(), d.scale()).unwrap()
}

fn float(d: Decimal) -> f64 {
    let (mantissa, scale) = d.parts();
    rust_decimal::Decimal::from_i128_with_scale(mantissa, scale).to_f64().unwrap()
}

fn fraction_f64(f: Option<Fraction>) -> Option<f64> {
    f.map(|f| f.num as f64 / f.den as f64)
}

fn make_tick(symbol: &str, price: Decimal, qty: Decimal, ts_ms: u64) -> NormalizedTick {
    NormalizedTick {
        exchange: Exchange::Binance,
        symbol: symbol.to_string(),
        price,
        quantity: qty,
        side: Some(TradeSide::Buy),
        trade_id: None,
        exchange_ts_ms: None,
        received_at_ms: ts_ms,
    }
}

fn make_tick_with_exchange_ts(
    symbol: &str,
    price: Decimal,
    qty: Decimal,
    exchange_ts_ms: u64,
    received_at_ms: u64,
) -> NormalizedTick {
    NormalizedTick {
        exchange: Exchange::Binance,
        symbol: symbol.to_string(),
        price,
        quantity: qty,
        side: Some(TradeSide::Buy),
        trade_id: None,
        exchange_ts_ms: Some(exchange_ts_ms),
        received_at_ms,
    }
}

fn agg(symbol: &str, tf: Timeframe) -> OhlcvAggregator {
    OhlcvAggregator::new(symbol, tf).unwrap()
}

#[test]
fn test_ohlcv_aggregator_first_tick_sets_ohlcv() {
    let mut agg = agg("BTC-USD", Timeframe::Minutes(1));
    let tick = make_tick("BTC-USD", dec("50000"), dec("1"), 60_000);
    let result = agg.feed(&tick).unwrap();
    assert!(result.is_empty()); // no completed bar yet
    let bar = agg.current_bar().unwrap();
    assert_eq!(bar.open, dec("50000"));
    assert_eq!(bar.high, dec("50000"));
    assert_eq!(bar.low, dec("50000"));
    assert_eq!(bar.close, dec("50000"));
    assert_eq!(bar.volume, dec("1"));
    assert_eq!(bar.trade_count, 1);
}

#[test]
fn test_ohlcv_aggregator_high_low_tracking() {
    let mut agg = agg("BTC-USD", Timeframe::Minutes(1));
    agg.feed(&make_tick("BTC-USD", dec("50000"), dec("1"), 60_000))
        .unwrap();
    agg.feed(&make_tick("BTC-USD", dec("51000"), dec("1"), 60_100))
        .unwrap();
    agg.feed(&make_tick("BTC-USD", dec("49500"), dec("1"), 60_200))
        .unwrap();
    let bar = agg.current_bar().unwrap();
    assert_eq!(bar.high, dec("51000"));
    assert_eq!(bar.low, dec("49500"));
    assert_eq!(bar.close, dec("49500"));
    assert_eq!(bar.trade_count, 3);
}

#[test]
fn test_ohlcv_aggregator_bar_completes_on_new_window() {
    let mut agg = agg("BTC-USD", Timeframe::Minutes(1));
    agg.feed(&make_tick("BTC-USD", dec("50000"), dec("1"), 60_000))
        .unwrap();
    agg.feed(&make_tick("BTC-USD", dec("50100"), dec("2"), 60_500))
        .unwrap();
    // Tick in next minute window closes previous bar
    let mut bars = agg
        .feed(&make_tick("BTC-USD", dec("50200"), dec("1"), 120_000))
        .unwrap();
    assert_eq!(bars.len(), 1);
    let bar = bars.remove(0);
    assert!(bar.is_complete);
    assert_eq!(bar.open, dec("50000"));
    assert_eq!(bar.close, dec("50100"));
    assert_eq!(bar.volume, dec("3"));
    assert_eq!(bar.bar_start_ms, 60_000);
}

#[test]
fn test_ohlcv_aggregator_new_bar_started_after_completion() {
    let mut agg = agg("BTC-USD", Timeframe::Minutes(1));
    agg.feed(&make_tick("BTC-USD", dec("50000"), dec("1"), 60_000))
        .unwrap();
    agg.feed(&make_tick("BTC-USD", dec("50200"), dec("1"), 120_000))
        .unwrap();
    let bar = agg.current_bar().unwrap();
    assert_eq!(bar.open, dec("50200"));
    assert_eq!(bar.bar_start_ms, 120_000);
}

#[test]
fn test_ohlcv_aggregator_flush_marks_complete() {
    let mut agg = agg("BTC-USD", Timeframe::Minutes(1));
    agg.feed(&make_tick("BTC-USD", dec("50000"), dec("1"), 60_000))
        .unwrap();
    let flushed = agg.flush().unwrap();
    assert!(flushed.is_complete);
    assert!(agg.current_bar().is_none());
}

#[test]
fn test_ohlcv_aggregator_flush_empty_returns_none() {
    let mut agg = agg("BTC-USD", Timeframe::Minutes(1));
    assert!(agg.flush().is_none());
}

#[test]
fn test_ohlcv_aggregator_wrong_symbol_returns_error() {
    let mut agg = agg("BTC-USD", Timeframe::Minutes(1));
    let tick = make_tick("ETH-USD", dec("3000"), dec("1"), 60_000);
    let result = agg.feed(&tick);
    assert!(matches!(result, Err(StreamError::AggregationError { .. })));
}

#[test]
fn test_ohlcv_aggregator_volume_accumulates() {
    let mut agg = agg("BTC-USD", Timeframe::Minutes(1));
    agg.feed(&make_tick("BTC-USD", dec("50000"), dec("1.5"), 60_000))
        .unwrap();
    agg.feed(&make_tick("BTC-USD", dec("50100"), dec("2.5"), 60_100))
        .unwrap();
    let bar = agg.current_bar().unwrap();
    assert_eq!(bar.volume, dec("4"));
}

#[test]
fn test_ohlcv_bar_symbol_and_timeframe() {
    let mut agg = agg("BTC-USD", Timeframe::Minutes(5));
    agg.feed(&make_tick("BTC-USD", dec("50000"), dec("1"), 300_000))
        .unwrap();
    let bar = agg.current_bar().unwrap();
    assert_eq!(bar.symbol, "BTC-USD");
    assert_eq!(bar.timeframe, Timeframe::Minutes(5));
}

#[test]
fn test_ohlcv_aggregator_symbol_accessor() {
    let agg = agg("ETH-USD", Timeframe::Hours(1));
    assert_eq!(agg.symbol(), "ETH-USD");
    assert_eq!(agg.timeframe(), Timeframe::Hours(1));
}

#[test]
fn test_bar_aligned_by_exchange_ts_not_received_ts() {
    // exchange_ts_ms puts tick in minute 1 (60_000..120_000)
    // received_at_ms puts tick in minute 2 (120_000..180_000) due to latency
    // Bar should use the exchange timestamp.
    let mut agg = agg("BTC-USD", Timeframe::Minutes(1));
    let tick = make_tick_with_exchange_ts("BTC-USD", dec("50000"), dec("1"), 60_500, 120_100);
    agg.feed(&tick).unwrap();
    let bar = agg.current_bar().unwrap();
    assert_eq!(bar.bar_start_ms, 60_000, "bar should use exchange_ts_ms");
}

#[test]
fn test_bar_falls_back_to_received_ts_when_no_exchange_ts() {
    let mut agg = agg("BTC-USD", Timeframe::Minutes(1));
    let tick = make_tick("BTC-USD", dec("50000"), dec("1"), 75_000);
    agg.feed(&tick).unwrap();
    let bar = agg.current_bar().unwrap();
    assert_eq!(bar.bar_start_ms, 60_000);
}

#[test]
fn test_emit_empty_bars_no_gap_no_empties() {
    // Consecutive bars — no gap — should not produce empty bars.
    let mut agg = OhlcvAggregator::new("BTC-USD", Timeframe::Minutes(1))
        .unwrap()
        .with_emit_empty_bars(true);
    agg.feed(&make_tick("BTC-USD", dec("50000"), dec("1"), 60_000))
        .unwrap();
    let bars = agg
        .feed(&make_tick("BTC-USD", dec("50100"), dec("1"), 120_000))
        .unwrap();
    // Only the completed bar for the first minute; no empties.
    assert_eq!(bars.len(), 1);
    assert_eq!(bars[0].bar_start_ms, 60_000);
    assert_eq!(bars[0].volume, dec("1"));
}

#[test]
fn test_emit_empty_bars_two_skipped_windows() {
    // Gap of 3 minutes: complete bar at 60s, then two empty bars at 120s and 180s,
    // then the 240s tick starts a new bar.
    let mut agg = OhlcvAggregator::new("BTC-USD", Timeframe::Minutes(1))
        .unwrap()
        .with_emit_empty_bars(true);
    agg.feed(&make_tick("BTC-USD", dec("50000"), dec("1"), 60_000))
        .unwrap();
    let bars = agg
        .feed(&make_tick("BTC-USD", dec("51000"), dec("1"), 240_000))
        .unwrap();
    // 1 real completed bar + 2 empty gap bars (120_000, 180_000)
    assert_eq!(bars.len(), 3);
    assert_eq!(bars[0].bar_start_ms, 60_000);
    assert!(!bars[0].volume.is_zero()); // real bar
    assert_eq!(bars[1].bar_start_ms, 120_000);
    assert!(bars[1].volume.is_zero()); // empty
    assert_eq!(bars[1].trade_count, 0);
    assert_eq!(bars[1].open, dec("50000")); // last close carried forward
    assert_eq!(bars[2].bar_start_ms, 180_000);
    assert!(bars[2].volume.is_zero()); // empty
}

#[test]
fn test_emit_empty_bars_disabled_no_empties_on_gap() {
    let mut agg = OhlcvAggregator::new("BTC-USD", Timeframe::Minutes(1))
        .unwrap()
        .with_emit_empty_bars(false);
    agg.feed(&make_tick("BTC-USD", dec("50000"), dec("1"), 60_000))
        .unwrap();
    let bars = agg
        .feed(&make_tick("BTC-USD", dec("51000"), dec("1"), 240_000))
        .unwrap();
    assert_eq!(bars.len(), 1); // only real completed bar, no empties
}

#[test]
fn test_emit_empty_bars_is_complete_true() {
    let mut agg = OhlcvAggregator::new("BTC-USD", Timeframe::Minutes(1))
        .unwrap()
        .with_emit_empty_bars(true);
    agg.feed(&make_tick("BTC-USD", dec("50000"), dec("1"), 60_000))
        .unwrap();
    let bars = agg
        .feed(&make_tick("BTC-USD", dec("51000"), dec("1"), 240_000))
        .unwrap();
    for bar in &bars {
        assert!(bar.is_complete, "all emitted bars must be marked complete");
    }
}

#[test]
fn test_ohlcv_bar_display() {
    let mut agg = agg("BTC-USD", Timeframe::Minutes(1));
    agg.feed(&make_tick("BTC-USD", dec("50000"), dec("1"), 60_000))
        .unwrap();
    let bar = agg.current_bar().unwrap();
    let s = bar.to_string();
    assert!(s.contains("BTC-USD"));
    assert!(s.contains("1m"));
    assert!(s.contains("50000"));
}

#[test]
fn test_bar_count_increments_on_feed() {
    let mut agg = agg("BTC-USD", Timeframe::Minutes(1));
    assert_eq!(agg.bar_count(), 0);
    agg.feed(&make_tick("BTC-USD", dec("50000"), dec("1"), 60_000))
        .unwrap();
    agg.feed(&make_tick("BTC-USD", dec("50100"), dec("1"), 120_000))
        .unwrap();
    assert_eq!(agg.bar_count(), 1);
}

#[test]
fn test_bar_count_increments_on_flush() {
    let mut agg = agg("BTC-USD", Timeframe::Minutes(1));
    agg.feed(&make_tick("BTC-USD", dec("50000"), dec("1"), 60_000))
        .unwrap();
    agg.flush().unwrap();
    assert_eq!(agg.bar_count(), 1);
}

#[test]
fn test_ohlcv_bar_range() {
    let mut agg = agg("BTC-USD", Timeframe::Minutes(1));
    agg.feed(&make_tick("BTC-USD", dec("50000"), dec("1"), 60_000))
        .unwrap();
    agg.feed(&make_tick("BTC-USD", dec("51000"), dec("1"), 60_100))
        .unwrap();
    agg.feed(&make_tick("BTC-USD", dec("49500"), dec("1"), 60_200))
        .unwrap();
    let bar = agg.current_bar().unwrap();
    assert_eq!(bar.range(), dec("1500")); // 51000 - 49500
}

#[test]
fn test_ohlcv_bar_body_bullish() {
    let mut agg = agg("BTC-USD", Timeframe::Minutes(1));
    agg.feed(&make_tick("BTC-USD", dec("50000"), dec("1"), 60_000))
        .unwrap();
    agg.feed(&make_tick("BTC-USD", dec("50500"), dec("1"), 60_100))
        .unwrap();
    let bar = agg.current_bar().unwrap();
    // open=50000, close=50500 → body = 500
    assert_eq!(bar.body(), dec("500"));
}

#[test]
fn test_ohlcv_bar_body_bearish() {
    let mut agg = agg("BTC-USD", Timeframe::Minutes(1));
    agg.feed(&make_tick("BTC-USD", dec("50500"), dec("1"), 60_000))
        .unwrap();
    agg.feed(&make_tick("BTC-USD", dec("50000"), dec("1"), 60_100))
        .unwrap();
    let bar = agg.current_bar().unwrap();
    // open=50500, close=50000 → body = 500 (abs)
    assert_eq!(bar.body(), dec("500"));
}

#[test]
fn test_aggregator_reset_clears_bar_and_count() {
    let mut agg = agg("BTC-USD", Timeframe::Minutes(1));
    agg.feed(&make_tick("BTC-USD", dec("50000"), dec("1"), 60_000))
        .unwrap();
    agg.feed(&make_tick("BTC-USD", dec("50100"), dec("1"), 120_000))
        .unwrap();
    assert_eq!(agg.bar_count(), 1);
    assert!(agg.current_bar().is_some());
    agg.reset();
    assert_eq!(agg.bar_count(), 0);
    assert!(agg.current_bar().is_none());
}

#[test]
fn test_ohlcv_bar_is_bullish_when_close_gt_open() {
    let mut agg = agg("BTC-USD", Timeframe::Minutes(1));
    agg.feed(&make_tick("BTC-USD", dec("50000"), dec("1"), 60_000))
        .unwrap();
    agg.feed(&make_tick("BTC-USD", dec("51000"), dec("1"), 60_100))
        .unwrap();
    let bar = agg.current_bar().unwrap();
    assert!(bar.is_bullish());
    assert!(!bar.is_bearish());
}

#[test]
fn test_ohlcv_bar_is_bearish_when_close_lt_open() {
    let mut agg = agg("BTC-USD", Timeframe::Minutes(1));
    agg.feed(&make_tick("BTC-USD", dec("51000"), dec("1"), 60_000))
        .unwrap();
    agg.feed(&make_tick("BTC-USD", dec("50000"), dec("1"), 60_100))
        .unwrap();
    let bar = agg.current_bar().unwrap();
    assert!(bar.is_bearish());
    assert!(!bar.is_bullish());
}

#[test]
fn test_ohlcv_bar_neither_bullish_nor_bearish_on_equal_open_close() {
    let mut agg = agg("BTC-USD", Timeframe::Minutes(1));
    agg.feed(&make_tick("BTC-USD", dec("50000"), dec("1"), 60_000))
        .unwrap();
    // Single tick: open == close
    let bar = agg.current_bar().unwrap();
    assert!(!bar.is_bullish());
    assert!(!bar.is_bearish());
}

#[test]
fn test_ohlcv_bar_vwap_single_tick_equals_price() {
    let mut agg = agg("BTC-USD", Timeframe::Minutes(1));
    agg.feed(&make_tick("BTC-USD", dec("50000"), dec("2"), 60_000))
        .unwrap();
    let bar = agg.current_bar().unwrap();
    assert_eq!(bar.vwap, Some(dec("50000")));
}

#[test]
fn test_ohlcv_bar_vwap_two_equal_price_ticks() {
    let mut agg = agg("BTC-USD", Timeframe::Minutes(1));
    agg.feed(&make_tick("BTC-USD", dec("50000"), dec("1"), 60_000))
        .unwrap();
    agg.feed(&make_tick("BTC-USD", dec("50000"), dec("3"), 60_100))
        .unwrap();
    let bar = agg.current_bar().unwrap();
    // vwap = (50000*1 + 50000*3) / (1+3) = 50000
    assert_eq!(bar.vwap, Some(dec("50000")));
}

#[test]
fn test_ohlcv_bar_vwap_two_different_price_ticks() {
    let mut agg = agg("BTC-USD", Timeframe::Minutes(1));
    agg.feed(&make_tick("BTC-USD", dec("50000"), dec("1"), 60_000))
        .unwrap();
    agg.feed(&make_tick("BTC-USD", dec("51000"), dec("1"), 60_100))
        .unwrap();
    let bar = agg.current_bar().unwrap();
    // vwap = (50000*1 + 51000*1) / (1+1) = 50500
    assert_eq!(bar.vwap, Some(dec("50500")));
}

#[test]
fn test_ohlcv_bar_vwap_gap_fill_is_none() {
    let mut agg = OhlcvAggregator::new("BTC-USD", Timeframe::Minutes(1))
        .unwrap()
        .with_emit_empty_bars(true);
    agg.feed(&make_tick("BTC-USD", dec("50000"), dec("1"), 60_000))
        .unwrap();
    let bars = agg
        .feed(&make_tick("BTC-USD", dec("51000"), dec("1"), 240_000))
        .unwrap();
    // bars[0] = real, bars[1] and bars[2] = gap-fills
    assert!(bars[0].vwap.is_some());
    assert!(bars[1].vwap.is_none());
    assert!(bars[2].vwap.is_none());
}

#[test]
fn test_aggregator_reset_allows_fresh_start() {
    let mut agg = agg("BTC-USD", Timeframe::Minutes(1));
    agg.feed(&make_tick("BTC-USD", dec("50000"), dec("1"), 60_000))
        .unwrap();
    agg.reset();
    agg.feed(&make_tick("BTC-USD", dec("99999"), dec("2"), 60_000))
        .unwrap();
    let bar = agg.current_bar().unwrap();
    assert_eq!(bar.open, dec("99999"));
}

#[test]
fn test_window_progress_none_when_no_bar() {
    let agg = agg("BTC-USD", Timeframe::Minutes(1));
    assert!(fraction_f64(agg.window_progress(60_000)).is_none());
}

#[test]
fn test_window_progress_at_start_is_zero() {
    let mut agg = agg("BTC-USD", Timeframe::Minutes(1));
    // Tick at bar start.
    agg.feed(&make_tick("BTC-USD", dec("100"), dec("1"), 60_000)).unwrap();
    assert_eq!(fraction_f64(agg.window_progress(60_000)), Some(0.0));
}

#[test]
fn test_window_progress_midpoint() {
    let mut agg = agg("BTC-USD", Timeframe::Minutes(1));
    agg.feed(&make_tick("BTC-USD", dec("100"), dec("1"), 60_000)).unwrap();
    // 30 s into a 60 s bar → 0.5
    let progress = fraction_f64(agg.window_progress(90_000)).unwrap();
    assert!((progress - 0.5).abs() < 1e-9);
}

#[test]
fn test_window_progress_clamps_at_one() {
    let mut agg = agg("BTC-USD", Timeframe::Minutes(1));
    agg.feed(&make_tick("BTC-USD", dec("100"), dec("1"), 60_000)).unwrap();
    // 90 s past the bar start (longer than the bar) → clamped to 1.0
    assert_eq!(fraction_f64(agg.window_progress(150_000)), Some(1.0));
}

#[test]
fn test_total_volume_zero_before_completion() {
    let mut agg = agg("BTC-USD", Timeframe::Minutes(1));
    agg.feed(&make_tick("BTC-USD", dec("100"), dec("2"), 60_000)).unwrap();
    // Bar not yet complete; total_volume should be zero
    assert_eq!(agg.total_volume(), dec("0"));
}

#[test]
fn test_total_volume_accumulates_across_bars() {
    let mut agg = agg("BTC-USD", Timeframe::Minutes(1));
    // Bar 1: volume = 2
    agg.feed(&make_tick("BTC-USD", dec("100"), dec("2"), 60_000)).unwrap();
    // Trigger completion of bar 1
    agg.feed(&make_tick("BTC-USD", dec("101"), dec("3"), 120_000)).unwrap();
    // Bar 1 completed with volume 2. Bar 2 in progress with volume 3 (not counted).
    assert_eq!(agg.total_volume(), dec("2"));
    // Trigger completion of bar 2
    agg.feed(&make_tick("BTC-USD", dec("102"), dec("5"), 180_000)).unwrap();
    assert_eq!(agg.total_volume(), dec("5")); // 2 + 3
}

#[test]
fn test_total_volume_reset_clears() {
    let mut agg = agg("BTC-USD", Timeframe::Minutes(1));
    agg.feed(&make_tick("BTC-USD", dec("100"), dec("2"), 60_000)).unwrap();
    agg.feed(&make_tick("BTC-USD", dec("101"), dec("3"), 120_000)).unwrap();
    agg.reset();
    assert_eq!(agg.total_volume(), dec("0"));
}

#[test]
fn test_last_bar_none_before_completion() {
    let agg = agg("BTC-USD", Timeframe::Minutes(1));
    assert!(agg.last_bar().is_none());
}

#[test]
fn test_last_bar_set_after_bar_completion() {
    let mut agg = agg("BTC-USD", Timeframe::Minutes(1));
    // First bar in window [60000, 120000)
    agg.feed(&make_tick("BTC-USD", dec("100"), dec("1"), 60_000)).unwrap();
    // Second tick in next window completes the first bar
    agg.feed(&make_tick("BTC-USD", dec("200"), dec("1"), 120_000)).unwrap();
    let last = agg.last_bar().unwrap();
    assert!(last.is_complete);
    assert_eq!(last.close, dec("100"));
}

#[test]
fn test_last_bar_set_after_flush() {
    let mut agg = agg("BTC-USD", Timeframe::Minutes(1));
    agg.feed(&make_tick("BTC-USD", dec("50"), dec("1"), 60_000)).unwrap();
    let flushed = agg.flush().unwrap();
    assert_eq!(agg.last_bar().unwrap().close, flushed.close);
}

#[test]
fn test_last_bar_cleared_on_reset() {
    let mut agg = agg("BTC-USD", Timeframe::Minutes(1));
    agg.feed(&make_tick("BTC-USD", dec("100"), dec("1"), 60_000)).unwrap();
    agg.feed(&make_tick("BTC-USD", dec("200"), dec("1"), 120_000)).unwrap();
    assert!(agg.last_bar().is_some());
    agg.reset();
    assert!(agg.last_bar().is_none());
}

#[test]
fn test_average_volume_none_before_bars() {
    let agg = agg("BTC-USD", Timeframe::Minutes(1));
    assert!(agg.average_volume().is_none());
}

#[test]
fn test_average_volume_one_bar() {
    let mut agg = agg("BTC-USD", Timeframe::Minutes(1));
    agg.feed(&make_tick("BTC-USD", dec("100"), dec("4"), 60_000)).unwrap();
    agg.feed(&make_tick("BTC-USD", dec("101"), dec("1"), 120_000)).unwrap();
    // bar 1 complete with volume 4; bar 2 in progress, not counted
    assert_eq!(agg.average_volume(), Some(dec("4")));
}

#[test]
fn test_average_volume_two_bars() {
    let mut agg = agg("BTC-USD", Timeframe::Minutes(1));
    agg.feed(&make_tick("BTC-USD", dec("100"), dec("4"), 60_000)).unwrap();
    agg.feed(&make_tick("BTC-USD", dec("101"), dec("6"), 120_000)).unwrap();
    agg.feed(&make_tick("BTC-USD", dec("102"), dec("1"), 180_000)).unwrap();
    // bar 1 vol=4, bar 2 vol=6 → avg=5
    assert_eq!(agg.average_volume(), Some(dec("5")));
}

#[test]
fn test_peak_volume_none_before_completion() {
    let agg = agg("BTC-USD", Timeframe::Minutes(1));
    assert!(agg.peak_volume().is_none());
}

#[test]
fn test_peak_volume_tracks_maximum() {
    let mut agg = agg("BTC-USD", Timeframe::Minutes(1));
    // Bar 1: vol=3
    agg.feed(&make_tick("BTC-USD", dec("100"), dec("3"), 60_000)).unwrap();
    // Trigger bar 1 completion; bar 2 vol=10 in progress
    agg.feed(&make_tick("BTC-USD", dec("101"), dec("10"), 120_000)).unwrap();
    assert_eq!(agg.peak_volume(), Some(dec("3")));
    // Trigger bar 2 completion
    agg.feed(&make_tick("BTC-USD", dec("102"), dec("1"), 180_000)).unwrap();
    assert_eq!(agg.peak_volume(), Some(dec("10")));
}

#[test]
fn test_peak_volume_reset_clears() {
    let mut agg = agg("BTC-USD", Timeframe::Minutes(1));
    agg.feed(&make_tick("BTC-USD", dec("100"), dec("5"), 60_000)).unwrap();
    agg.feed(&make_tick("BTC-USD", dec("101"), dec("1"), 120_000)).unwrap();
    agg.reset();
    assert!(agg.peak_volume().is_none());
}

#[test]
fn test_peak_volume_via_flush() {
    let mut agg = agg("BTC-USD", Timeframe::Minutes(1));
    agg.feed(&make_tick("BTC-USD", dec("100"), dec("7"), 60_000)).unwrap();
    agg.flush();
    assert_eq!(agg.peak_volume(), Some(dec("7")));
}

#[test]
fn test_min_volume_none_before_completion() {
    let agg = agg("BTC-USD", Timeframe::Minutes(1));
    assert!(agg.min_volume().is_none());
}

#[test]
fn test_min_volume_tracks_minimum() {
    let mut agg = agg("BTC-USD", Timeframe::Minutes(1));
    // Bar 1: vol=10
    agg.feed(&make_tick("BTC-USD", dec("100"), dec("10"), 60_000)).unwrap();
    agg.feed(&make_tick("BTC-USD", dec("101"), dec("1"), 120_000)).unwrap();
    assert_eq!(agg.min_volume(), Some(dec("10")));
    // Bar 2: vol=1 — should update minimum
    agg.feed(&make_tick("BTC-USD", dec("102"), dec("5"), 180_000)).unwrap();
    assert_eq!(agg.min_volume(), Some(dec("1")));
}

#[test]
fn test_min_volume_reset_clears() {
    let mut agg = agg("BTC-USD", Timeframe::Minutes(1));
    agg.feed(&make_tick("BTC-USD", dec("100"), dec("5"), 60_000)).unwrap();
    agg.feed(&make_tick("BTC-USD", dec("101"), dec("1"), 120_000)).unwrap();
    agg.reset();
    assert!(agg.min_volume().is_none());
}

#[test]
fn test_volume_range_none_before_completion() {
    let agg = agg("BTC-USD", Timeframe::Minutes(1));
    assert!(agg.volume_range().is_none());
}

#[test]
fn test_volume_range_after_two_bars() {
    let mut agg = agg("BTC-USD", Timeframe::Minutes(1));
    agg.feed(&make_tick("BTC-USD", dec("100"), dec("3"), 60_000)).unwrap();
    agg.feed(&make_tick("BTC-USD", dec("101"), dec("10"), 120_000)).unwrap();
    agg.feed(&make_tick("BTC-USD", dec("102"), dec("1"), 180_000)).unwrap();
    // bar1=3, bar2=10 → min=3, peak=10
    assert_eq!(agg.volume_range(), Some((dec("3"), dec("10"))));
}

#[test]
fn test_is_active_false_before_any_ticks() {
    let agg = agg("BTC-USD", Timeframe::Minutes(1));
    assert!(!agg.is_active());
}

#[test]
fn test_is_active_true_after_first_tick() {
    let mut agg = agg("BTC-USD", Timeframe::Minutes(1));
    agg.feed(&make_tick("BTC-USD", dec("100"), dec("1"), 1_000)).unwrap();
    assert!(agg.is_active());
}

#[test]
fn test_is_active_false_after_flush() {
    let mut agg = agg("BTC-USD", Timeframe::Minutes(1));
    agg.feed(&make_tick("BTC-USD", dec("100"), dec("1"), 1_000)).unwrap();
    agg.flush();
    assert!(!agg.is_active());
}

#[test]
fn test_vwap_current_none_before_any_ticks() {
    let agg = agg("BTC-USD", Timeframe::Minutes(1));
    assert!(agg.vwap_current().is_none());
}

#[test]
fn test_vwap_current_equals_price_for_single_tick() {
    let mut agg = agg("BTC-USD", Timeframe::Minutes(1));
    agg.feed(&make_tick("BTC-USD", dec("200"), dec("5"), 1_000)).unwrap();
    // vwap = price*qty / qty = 200
    assert_eq!(agg.vwap_current(), Some(dec("200")));
}

#[test]
fn test_vwap_current_weighted_average() {
    let mut agg = agg("BTC-USD", Timeframe::Minutes(1));
    agg.feed(&make_tick("BTC-USD", dec("100"), dec("1"), 1_000)).unwrap();
    agg.feed(&make_tick("BTC-USD", dec("200"), dec("3"), 2_000)).unwrap();
    // vwap = (100*1 + 200*3) / (1+3) = 700/4 = 175
    assert_eq!(agg.vwap_current(), Some(dec("175")));
}
