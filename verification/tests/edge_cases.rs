//! Errors, and inputs at the edge of what is accepted.

use fin_stream::aggregator::OhlcvAggregator;
use fin_stream::bar::OhlcvBar;
use fin_stream::decimal::Decimal;
use fin_stream::error::StreamError;
use fin_stream::text::{number_text, padded_text, parse_number, trim};
use fin_stream::tick::{Exchange, NormalizedTick};
use fin_stream::timeframe::Timeframe;

fn config_reason(r: Result<Timeframe, StreamError>) -> String {
    match r {
        Err(StreamError::ConfigError { reason }) => reason,
        other => panic!("expected a configuration error, got {:?}", other),
    }
}

fn tick(symbol: &str, ts_ms: u64) -> NormalizedTick {
    NormalizedTick {
        exchange: Exchange::Binance,
        symbol: symbol.to_string(),
        price: Decimal::whole(100),
        quantity: Decimal::whole(1),
        side: None,
        trade_id: None,
        exchange_ts_ms: None,
        received_at_ms: ts_ms,
    }
}

#[test]
fn timeframes_are_read_with_white_space_around_them() {
    assert_eq!(Timeframe::parse(" 5m\n").unwrap(), Timeframe::Minutes(5));
    assert_eq!(Timeframe::parse("+30s").unwrap(), Timeframe::Seconds(30));
    assert_eq!(Timeframe::parse("007h").unwrap(), Timeframe::Hours(7));
}

#[test]
fn an_empty_timeframe_is_refused() {
    assert_eq!(config_reason(Timeframe::parse("")), "timeframe string is empty");
    assert_eq!(config_reason(Timeframe::parse("  ")), "timeframe string is empty");
}

#[test]
fn a_timeframe_without_a_number_is_refused() {
    assert_eq!(
        config_reason(Timeframe::parse("xm")),
        "invalid timeframe numeric part 'x' in 'xm'"
    );
    assert_eq!(config_reason(Timeframe::parse("m")), "invalid timeframe numeric part '' in 'm'");
    assert_eq!(
        config_reason(Timeframe::parse("-1m")),
        "invalid timeframe numeric part '-1' in '-1m'"
    );
    assert_eq!(
        config_reason(Timeframe::parse("18446744073709551616s")),
        "invalid timeframe numeric part '18446744073709551616' in '18446744073709551616s'"
    );
}

#[test]
fn a_timeframe_of_zero_is_refused() {
    assert_eq!(config_reason(Timeframe::parse("0h")), "timeframe value must be > 0, got '0h'");
}

#[test]
fn a_timeframe_with_an_unknown_suffix_is_refused() {
    assert_eq!(
        config_reason(Timeframe::parse("5d")),
        "unknown timeframe suffix 'd' in '5d'; expected s, m, or h"
    );
    assert_eq!(
        config_reason(Timeframe::parse("5é")),
        "unknown timeframe suffix 'é' in '5é'; expected s, m, or h"
    );
}

#[test]
fn a_timeframe_is_read_by_from_str_as_by_parse() {
    assert_eq!(" 2h ".parse::<Timeframe>().unwrap(), Timeframe::Hours(2));
    for text in ["", "0s", "x", "5d", "5é", "-1m", "18446744073709551616s"] {
        assert_eq!(config_reason(text.parse()), config_reason(Timeframe::parse(text)));
    }
    assert_eq!(config_reason(" 0s ".parse()), "timeframe value must be > 0, got '0s'");
}

#[test]
fn a_timeframe_without_length_starts_a_bar_at_each_time() {
    assert_eq!(Timeframe::Seconds(0).bar_start_ms(12_345), 12_345);
    assert_eq!(Timeframe::Hours(0).bar_start_ms(0), 0);
    assert_eq!(Timeframe::Hours(u64::MAX).bar_start_ms(u64::MAX), 0);
}

#[test]
fn prices_of_a_bar_are_written_as_in_its_ticks() {
    let mut agg = OhlcvAggregator::new("A", Timeframe::Minutes(1)).unwrap();
    for (mantissa, scale) in [(10_050, 2), (1_010, 1), (99_500, 3), (100, 0)] {
        let mut t = tick("A", 60_000);
        t.price = Decimal::from_parts(mantissa, scale).unwrap();
        let _ = agg.feed(&t).unwrap();
    }
    let b = agg.current_bar().unwrap();
    assert_eq!(b.open.to_string(), "100.50");
    assert_eq!(b.high.to_string(), "101.0");
    assert_eq!(b.low.to_string(), "99.500");
    assert_eq!(b.close.to_string(), "100");
}

#[test]
fn volume_and_vwap_of_a_bar_are_written_as_their_ticks_are() {
    let mut agg =
        OhlcvAggregator::new("A", Timeframe::Minutes(1)).unwrap().with_emit_empty_bars(true);
    let mut t = tick("A", 60_000);
    t.price = Decimal::from_parts(10_050, 2).unwrap();
    t.quantity = Decimal::from_parts(2_500, 3).unwrap();
    let _ = agg.feed(&t).unwrap();
    let b = agg.current_bar().unwrap();
    assert_eq!(b.volume.to_string(), "2.500");
    assert_eq!(b.vwap.unwrap().to_string(), "100.50");
    t.quantity = Decimal::from_parts(15, 1).unwrap();
    let _ = agg.feed(&t).unwrap();
    assert_eq!(agg.current_bar().unwrap().volume.to_string(), "4.000");
    let bars = agg.feed(&tick("A", 180_000)).unwrap();
    assert_eq!(bars.len(), 2);
    assert_eq!(bars[1].volume.to_string(), "0");
    assert_eq!(bars[1].close.to_string(), "100.50");
    assert!(bars[1].vwap.is_none());
}

#[test]
fn a_tick_out_of_range_changes_nothing() {
    let top = Decimal::from_parts(79_228_162_514_264_337_593_543_950_335, 0).unwrap();
    let mut agg = OhlcvAggregator::new("A", Timeframe::Minutes(1)).unwrap();
    let mut t = tick("A", 60_000);
    t.price = top;
    t.quantity = Decimal::whole(2);
    for (price, quantity) in [(top, Decimal::whole(2)), (Decimal::whole(2), top)] {
        t.price = price;
        t.quantity = quantity;
        match agg.feed(&t) {
            Err(StreamError::AggregationError { reason }) => {
                assert_eq!(reason, "tick takes a price, a volume or a count out of range");
            }
            _ => panic!("a value out of range was accepted"),
        }
        assert!(!agg.is_active());
    }
    t.price = Decimal::whole(1);
    t.quantity = top;
    assert_eq!(agg.feed(&t).unwrap().len(), 0);
    // The sum of the quantities in one bar, and then that of all bars.
    assert!(agg.feed(&t).is_err());
    assert_eq!(agg.current_bar().unwrap().trade_count, 1);
    assert_eq!(agg.current_bar().unwrap().volume, top);
    t.received_at_ms = 120_000;
    assert_eq!(agg.feed(&t).unwrap().len(), 1);
    t.received_at_ms = 180_000;
    assert!(agg.feed(&t).is_err());
    assert!(agg.flush().is_none());
    assert!(agg.is_active());
    assert_eq!(agg.bar_count(), 1);
    assert_eq!(agg.total_volume(), top);
    assert_eq!(agg.average_volume().unwrap(), top);
    assert_eq!(agg.current_bar().unwrap().bar_start_ms, 120_000);
    assert_eq!(agg.last_bar().unwrap().bar_start_ms, 60_000);
}

#[test]
fn one_of_equal_extremes_is_taken_as_it_is_written() {
    let d = |m: i128, s: u32| Decimal::from_parts(m, s).unwrap();
    let mut bars = Vec::new();
    for places in [0u32, 2, 1] {
        let mut agg = OhlcvAggregator::new("A", Timeframe::Minutes(1)).unwrap();
        let mut t = tick("A", 60_000);
        t.price = d(7 * 10i128.pow(places), places);
        t.quantity = d(3 * 10i128.pow(places), places);
        let _ = agg.feed(&t).unwrap();
        bars.push(agg.flush().unwrap());
    }
    assert_eq!(OhlcvBar::highest_high(&bars).unwrap().to_string(), "7");
    assert_eq!(OhlcvBar::max_high(&bars).unwrap().to_string(), "7.0");
    assert_eq!(OhlcvBar::min_low(&bars).unwrap().to_string(), "7");
    assert_eq!(OhlcvBar::max_bar_volume(&bars).unwrap().to_string(), "3.0");
    assert_eq!(OhlcvBar::min_bar_volume(&bars).unwrap().to_string(), "3");
    assert_eq!(OhlcvBar::median_close(&bars).unwrap().to_string(), "7.00");
}

#[test]
fn quotients_are_written_as_their_operands_are() {
    let d = |m: i128, s: u32| Decimal::from_parts(m, s).unwrap();
    assert_eq!((d(10_000, 2) / d(40, 1)).to_string(), "25.0");
    assert_eq!((d(10_000, 2) / d(4, 0)).to_string(), "25.00");
    assert_eq!((d(1, 0) / d(8, 0)).to_string(), "0.125");
}

#[test]
fn an_aggregator_needs_a_duration() {
    match OhlcvAggregator::new("X", Timeframe::Minutes(0)) {
        Err(StreamError::ConfigError { reason }) => {
            assert_eq!(reason, "OhlcvAggregator timeframe duration must be > 0");
        }
        _ => panic!("a zero duration was accepted"),
    }
}

#[test]
fn a_tick_of_another_symbol_changes_nothing() {
    let mut agg = OhlcvAggregator::new("A", Timeframe::Minutes(1)).unwrap();
    let _ = agg.feed(&tick("A", 60_000)).unwrap();
    match agg.feed(&tick("B", 180_000)) {
        Err(StreamError::AggregationError { reason }) => {
            assert_eq!(reason, "tick symbol 'B' does not match aggregator 'A'");
        }
        _ => panic!("a tick of another symbol was accepted"),
    }
    assert_eq!(agg.bar_count(), 0);
    assert_eq!(agg.current_bar().unwrap().trade_count, 1);
}

#[test]
fn progress_is_held_within_the_window() {
    let mut agg = OhlcvAggregator::new("A", Timeframe::Seconds(10)).unwrap();
    assert_eq!(agg.window_progress(0), None);
    let _ = agg.feed(&tick("A", 10_000)).unwrap();
    let progress = |now: u64| {
        let f = agg.window_progress(now).unwrap();
        (f.num, f.den)
    };
    assert_eq!(progress(5_000), (0, 10_000));
    assert_eq!(progress(12_500), (2_500, 10_000));
    assert_eq!(progress(50_000), (10_000, 10_000));
}

#[test]
fn numbers_are_written_in_decimal() {
    assert_eq!(Decimal::from_parts(-1250, 2).unwrap().to_string(), "-12.50");
    assert_eq!(Decimal::from_parts(5, 3).unwrap().to_string(), "0.005");
    assert_eq!(Decimal::zero().to_string(), "0");
    assert_eq!(Decimal::whole(i64::MIN).to_string(), "-9223372036854775808");
    assert_eq!(Decimal::hundredths(-150), Decimal::from_parts(-15, 1).unwrap());
    assert_eq!(Decimal::count(u64::MAX).to_string(), "18446744073709551615");
}

#[test]
fn texts_are_trimmed_and_numbers_read() {
    assert_eq!(trim("\t a b \u{a0}"), "a b");
    assert_eq!(parse_number("18446744073709551615"), Some(u64::MAX));
    assert_eq!(parse_number("18446744073709551616"), None);
    assert_eq!(parse_number(""), None);
    assert_eq!(parse_number("1_0"), None);
    assert_eq!(number_text(1_020), "1020");
    assert_eq!(padded_text(7, 3), "007");
}
