//! What the bars of an aggregator say of the ticks that it was fed.

use crate::aggregator::{
    all_recorded, closed_bars, extended, fed, flushed, fresh, gap_bars, lemma_fed_wf, opened,
    view_wf, window_of, AggregatorView,
};
use crate::aggregator_laws::{
    added, called_all, handed_out_by, is_accepted, lemma_gap_bars_in_order,
    recording_counts_the_bars, Call,
};
use crate::bar::{BarView, OhlcvBar};
use crate::decimal::{over, plus, times, Num};
use crate::tick::{NormalizedTick, TickView};
use crate::timeframe::{lemma_aligned, Timeframe};
use vstd::prelude::*;

verus! {

/// The time at which the window of a tick starts: the last multiple of the length of
/// a bar that is not later than the tick.
pub open spec fn start_of(t: TickView, timeframe: Timeframe) -> int {
    t.ts_ms - t.ts_ms as int % timeframe.millis()
}

/// Whether a bar is that of ticks: they lie in its window, it opens at the first price
/// and closes at the last one, no price is above its high or below its low, and these
/// are prices of ticks; it counts the ticks and adds up their quantities, and its
/// average price is the one weighted by quantity.
pub open spec fn is_bar_of(
    b: BarView,
    value: Num,
    symbol: Seq<char>,
    timeframe: Timeframe,
    ticks: Seq<TickView>,
) -> bool {
    let n = ticks.len() as int;
    &&& n > 0
    &&& b.symbol == symbol
    &&& b.timeframe == timeframe
    &&& b.bar_start_ms as int % timeframe.millis() == 0
    &&& forall|i: int|
        0 <= i < n ==> b.bar_start_ms <= (#[trigger] ticks[i]).ts_ms < b.bar_start_ms
            + timeframe.millis()
    &&& b.open == ticks[0].price
    &&& b.close == ticks[n - 1].price
    &&& forall|i: int|
        0 <= i < n ==> b.low.units <= (#[trigger] ticks[i]).price.units <= b.high.units
    &&& exists|i: int| 0 <= i < n && (#[trigger] ticks[i]).price == b.high
    &&& exists|i: int| 0 <= i < n && (#[trigger] ticks[i]).price == b.low
    &&& b.trade_count == n
    &&& Some(b.volume) == added(n, |i: int| Some(ticks[i].quantity))
    &&& Some(value) == added(n, |i: int| times(Some(ticks[i].price), Some(ticks[i].quantity)))
    &&& b.vwap == (if n == 1 {
        Some(ticks[0].price)
    } else if b.volume.units == 0 {
        None
    } else {
        over(Some(value), Some(b.volume))
    })
    &&& !b.is_gap_fill
}

/// Whether two bars are the same but for being complete.
pub open spec fn is_same_bar(b: BarView, c: BarView) -> bool {
    &&& b.symbol == c.symbol
    &&& b.timeframe == c.timeframe
    &&& b.bar_start_ms == c.bar_start_ms
    &&& b.open == c.open
    &&& b.high == c.high
    &&& b.low == c.low
    &&& b.close == c.close
    &&& b.volume == c.volume
    &&& b.trade_count == c.trade_count
    &&& b.is_gap_fill == c.is_gap_fill
    &&& b.vwap == c.vwap
}

proof fn lemma_window(a: AggregatorView, t: TickView)
    requires
        view_wf(a),
    ensures
        window_of(a, t) == start_of(t, a.timeframe),
        0 <= start_of(t, a.timeframe) <= t.ts_ms < start_of(t, a.timeframe) + a.timeframe.millis(),
        start_of(t, a.timeframe) % a.timeframe.millis() == 0,
{
    let d = a.timeframe.millis();
    let ts = t.ts_ms as int;
    lemma_aligned(ts, d);
    vstd::arithmetic::div_mod::lemma_fundamental_div_mod(ts, d);
    assert(d * (ts / d) == (ts / d) * d) by (nonlinear_arith);
    vstd::arithmetic::div_mod::lemma_mod_multiples_basic(ts / d, d);
}

/// A bar that a tick completes is the bar in progress as it was, with all its prices,
/// its volume and its count, but for being complete. A tick completes it exactly where
/// its own window is another one.
pub proof fn completed_bar_is_the_bar_in_progress(a: AggregatorView, t: TickView)
    requires
        view_wf(a),
    ensures
        ({
            let bars = closed_bars(a, t);
            let ends = a.current_bar is Some && a.current_bar->0.bar_start_ms != start_of(
                t,
                a.timeframe,
            );
            &&& !ends ==> bars.len() == 0
            &&& ends ==> bars.len() > 0 && bars[0].is_complete && is_same_bar(
                bars[0],
                a.current_bar->0,
            )
        }),
{
    lemma_window(a, t);
}

/// A bar that a flush completes is the bar in progress as it was, but for being
/// complete; it is the last bar then, and no bar is in progress.
pub proof fn flushed_bar_is_the_bar_in_progress(a: AggregatorView)
    requires
        a.current_bar is Some,
        flushed(a) is Some,
    ensures
        ({
            let s = flushed(a)->0;
            &&& s.current_bar is None
            &&& s.last_bar is Some && s.last_bar->0.is_complete
            &&& is_same_bar(s.last_bar->0, a.current_bar->0)
            &&& handed_out_by(a, Call::Flush) == seq![s.last_bar->0]
        }),
{
}

/// Where skipped windows are filled, a tick completes one bar for each window from
/// that of the bar in progress up to its own, in order: the later ones without volume
/// and ticks, and at the last price throughout. Otherwise, and for a tick that is
/// early, it completes the bar in progress alone.
pub proof fn skipped_windows_get_flat_bars(a: AggregatorView, t: TickView)
    requires
        view_wf(a),
        a.current_bar is Some,
        a.current_bar->0.bar_start_ms != start_of(t, a.timeframe),
    ensures
        ({
            let bars = closed_bars(a, t);
            let b = a.current_bar->0;
            let d = a.timeframe.millis();
            let start = start_of(t, a.timeframe);
            &&& a.emit_empty_bars && start > b.bar_start_ms ==> bars.len() * d == start
                - b.bar_start_ms
            &&& !a.emit_empty_bars || start < b.bar_start_ms ==> bars.len() == 1
            &&& forall|k: int|
                1 <= k < bars.len() ==> {
                    &&& (#[trigger] bars[k]).symbol == a.symbol
                    &&& bars[k].timeframe == a.timeframe
                    &&& bars[k].bar_start_ms == b.bar_start_ms + k * d
                    &&& bars[k].open == b.close && bars[k].high == b.close
                    &&& bars[k].low == b.close && bars[k].close == b.close
                    &&& bars[k].volume == Num { units: 0, places: 0 }
                    &&& bars[k].trade_count == 0
                    &&& bars[k].vwap is None
                    &&& bars[k].is_complete && bars[k].is_gap_fill
                }
        }),
{
    let bars = closed_bars(a, t);
    let b = a.current_bar->0;
    let d = a.timeframe.millis();
    let start = start_of(t, a.timeframe);
    let s = b.bar_start_ms as int;
    lemma_window(a, t);
    if a.emit_empty_bars {
        let rest = gap_bars(a.symbol, a.timeframe, s + d, start, b.close);
        lemma_gap_bars_in_order(a.symbol, a.timeframe, s + d, start, b.close);
        let n = rest.len() as int;
        assert(bars.len() == n + 1);
        assert forall|k: int| 1 <= k < bars.len() implies {
            &&& (#[trigger] bars[k]).symbol == a.symbol
            &&& bars[k].timeframe == a.timeframe
            &&& bars[k].bar_start_ms == b.bar_start_ms + k * d
            &&& bars[k].open == b.close && bars[k].high == b.close
            &&& bars[k].low == b.close && bars[k].close == b.close
            &&& bars[k].volume == Num { units: 0, places: 0 }
            &&& bars[k].trade_count == 0
            &&& bars[k].vwap is None
            &&& bars[k].is_complete && bars[k].is_gap_fill
        } by {
            assert(bars[k] == rest[k - 1]);
            assert(s + d + (k - 1) * d == s + k * d) by (nonlinear_arith);
            assert(k * d >= 0) by (nonlinear_arith)
                requires
                    k >= 0,
                    d > 0,
            ;
        }
        if start > s {
            assert(s % d == 0) by {
                let q = s / d;
                vstd::arithmetic::div_mod::lemma_mod_multiples_basic(q, d);
            }
            let w = start / d;
            let v = s / d;
            vstd::arithmetic::div_mod::lemma_fundamental_div_mod(start, d);
            vstd::arithmetic::div_mod::lemma_fundamental_div_mod(s, d);
            if n > 0 {
                assert(rest[n - 1].trade_count == 0);
                assert(s + d + (n - 1) * d < start);
            }
            assert(start - s == (w - v) * d) by (nonlinear_arith)
                requires
                    start == d * w + 0,
                    s == d * v + 0,
            ;
            assert(w - v == n + 1) by (nonlinear_arith)
                requires
                    start - s == (w - v) * d,
                    start > s,
                    d > 0,
                    n >= 0,
                    n > 0 ==> s + d + (n - 1) * d < start,
                    s + d + n * d >= start,
            ;
        }
    }
}

/// The first tick of a window starts the bar of that tick.
pub proof fn first_tick_starts_its_bar(a: AggregatorView, t: TickView)
    requires
        view_wf(a),
        fed(a, t) is Some,
        a.current_bar is None || a.current_bar->0.bar_start_ms != start_of(t, a.timeframe),
    ensures
        ({
            let s = fed(a, t)->0;
            &&& s.current_bar is Some
            &&& is_bar_of(s.current_bar->0, s.price_volume_sum, a.symbol, a.timeframe, seq![t])
            &&& !s.current_bar->0.is_complete
        }),
{
    lemma_window(a, t);
    let value = times(Some(t.price), Some(t.quantity));
    let ticked = AggregatorView {
        current_bar: Some(opened(a, t)),
        price_volume_sum: value->0,
        ..a
    };
    recording_counts_the_bars(ticked, closed_bars(a, t));
    let ticks = seq![t];
    let b = opened(a, t);
    assert(ticks[0].price == b.high);
    assert(added(1, |i: int| Some(ticks[i].quantity)) == Some(t.quantity));
    assert(added(1, |i: int| times(Some(ticks[i].price), Some(ticks[i].quantity))) == value);
}

/// A further tick of the window is added to the bar: the bar of some ticks becomes the
/// bar of these and the new one.
pub proof fn further_tick_is_added_to_the_bar(
    a: AggregatorView,
    ticks: Seq<TickView>,
    t: TickView,
)
    requires
        view_wf(a),
        a.current_bar is Some,
        is_bar_of(a.current_bar->0, a.price_volume_sum, a.symbol, a.timeframe, ticks),
        fed(a, t) is Some,
        a.current_bar->0.bar_start_ms == start_of(t, a.timeframe),
    ensures
        ({
            let s = fed(a, t)->0;
            &&& s.current_bar is Some
            &&& is_bar_of(
                s.current_bar->0,
                s.price_volume_sum,
                a.symbol,
                a.timeframe,
                ticks.push(t),
            )
            &&& !s.current_bar->0.is_complete
        }),
{
    lemma_window(a, t);
    let b = a.current_bar->0;
    let n = ticks.len() as int;
    let all = ticks.push(t);
    let value = times(Some(t.price), Some(t.quantity));
    let sum = plus(Some(a.price_volume_sum), value);
    let next = extended(b, t, sum)->0;
    assert(closed_bars(a, t) =~= Seq::<BarView>::empty());
    let s = AggregatorView { current_bar: Some(next), price_volume_sum: sum->0, ..a };
    assert(all_recorded(s, Seq::<BarView>::empty()) == Some(s));
    assert(fed(a, t) == Some(s));
    lemma_added(ticks, all, n);
    let i = choose|i: int| 0 <= i < n && (#[trigger] ticks[i]).price == b.high;
    let j = choose|j: int| 0 <= j < n && (#[trigger] ticks[j]).price == b.low;
    assert(all[i] == ticks[i] && all[j] == ticks[j] && all[n] == t);
    if t.price.units > b.high.units {
        assert(all[n].price == next.high);
    } else {
        assert(all[i].price == next.high);
    }
    if t.price.units < b.low.units {
        assert(all[n].price == next.low);
    } else {
        assert(all[j].price == next.low);
    }
    assert forall|k: int| 0 <= k < n + 1 implies next.low.units <= (
    #[trigger] all[k]).price.units <= next.high.units && next.bar_start_ms <= all[k].ts_ms
        < next.bar_start_ms + a.timeframe.millis() by {
        if k < n {
            assert(all[k] == ticks[k]);
        }
    }
    assert(added(n + 1, |k: int| Some(all[k].quantity)) == plus(
        added(n, |k: int| Some(all[k].quantity)),
        Some(t.quantity),
    ));
    assert(added(n + 1, |k: int| times(Some(all[k].price), Some(all[k].quantity))) == plus(
        added(n, |k: int| times(Some(all[k].price), Some(all[k].quantity))),
        value,
    ));
}

proof fn lemma_added(ticks: Seq<TickView>, all: Seq<TickView>, n: int)
    requires
        1 <= n <= ticks.len() <= all.len(),
        forall|i: int| 0 <= i < ticks.len() ==> ticks[i] == #[trigger] all[i],
    ensures
        added(n, |k: int| Some(ticks[k].quantity)) == added(n, |k: int| Some(all[k].quantity)),
        added(n, |k: int| times(Some(ticks[k].price), Some(ticks[k].quantity))) == added(
            n,
            |k: int| times(Some(all[k].price), Some(all[k].quantity)),
        ),
    decreases n,
{
    assert(ticks[n - 1] == all[n - 1]);
    if n > 1 {
        lemma_added(ticks, all, n - 1);
    }
}

/// The ticks that calls put into the bar in progress: since the last flush, those of
/// the window of the last tick that followed one another.
pub open spec fn pending(a: AggregatorView, calls: Seq<Call>) -> Seq<TickView>
    decreases calls.len(),
{
    if calls.len() == 0 {
        Seq::empty()
    } else {
        let before = called_all(a, calls.drop_last());
        let ticks = pending(a, calls.drop_last());
        if !is_accepted(before, calls.last()) {
            ticks
        } else {
            match calls.last() {
                Call::Flush => Seq::empty(),
                Call::Feed(t) => if ticks.len() > 0 && start_of(ticks[0], a.timeframe) == start_of(
                    t,
                    a.timeframe,
                ) {
                    ticks.push(t)
                } else {
                    seq![t]
                },
            }
        }
    }
}

/// Whatever ticks and flushes came, the bar in progress of a new aggregator is that of
/// the ticks that are pending; there is none where there are no such ticks.
pub proof fn bar_in_progress_is_that_of_its_ticks(
    symbol: Seq<char>,
    timeframe: Timeframe,
    emit_empty_bars: bool,
    calls: Seq<Call>,
)
    requires
        0 < timeframe.millis() <= u64::MAX,
    ensures
        ({
            let a = fresh(symbol, timeframe, emit_empty_bars);
            let s = called_all(a, calls);
            let ticks = pending(a, calls);
            &&& s.symbol == symbol && s.timeframe == timeframe
            &&& s.current_bar is None <==> ticks.len() == 0
            &&& s.current_bar is Some ==> is_bar_of(
                s.current_bar->0,
                s.price_volume_sum,
                symbol,
                timeframe,
                ticks,
            )
            &&& view_wf(s)
        }),
    decreases calls.len(),
{
    let a = fresh(symbol, timeframe, emit_empty_bars);
    if calls.len() > 0 {
        bar_in_progress_is_that_of_its_ticks(symbol, timeframe, emit_empty_bars, calls.drop_last());
        let s = called_all(a, calls.drop_last());
        let ticks = pending(a, calls.drop_last());
        let call = calls.last();
        if is_accepted(s, call) {
            match call {
                Call::Flush => {},
                Call::Feed(t) => {
                    lemma_fed_wf(s, t);
                    if s.current_bar is Some {
                        lemma_window(s, ticks[0]);
                        lemma_window(s, t);
                        lemma_one_start(
                            s.current_bar->0.bar_start_ms as int,
                            ticks[0].ts_ms as int,
                            timeframe.millis(),
                        );
                    }
                    if s.current_bar is Some && s.current_bar->0.bar_start_ms == start_of(
                        t,
                        timeframe,
                    ) {
                        further_tick_is_added_to_the_bar(s, ticks, t);
                    } else {
                        first_tick_starts_its_bar(s, t);
                    }
                },
            }
        }
    }
}

proof fn lemma_one_start(start: int, ts: int, d: int)
    requires
        d > 0,
        start % d == 0,
        start <= ts < start + d,
    ensures
        start == ts - ts % d,
{
    vstd::arithmetic::div_mod::lemma_fundamental_div_mod(ts, d);
    vstd::arithmetic::div_mod::lemma_fundamental_div_mod(start, d);
    let (q, r, p) = (ts / d, ts % d, start / d);
    vstd::arithmetic::div_mod::lemma_mod_bound(ts, d);
    assert(q == p) by (nonlinear_arith)
        requires
            ts == d * q + r,
            0 <= r < d,
            start == d * p,
            start <= ts < start + d,
            d > 0,
    ;
}

/// Every bar with ticks that a new aggregator hands out is that of the ticks which were
/// pending, whatever ticks and flushes came before: its high is the highest and its low
/// the lowest of their prices, it opens at the first and closes at the last.
pub proof fn bar_handed_out_is_that_of_its_ticks(
    symbol: Seq<char>,
    timeframe: Timeframe,
    emit_empty_bars: bool,
    calls: Seq<Call>,
    call: Call,
)
    requires
        0 < timeframe.millis() <= u64::MAX,
    ensures
        ({
            let a = fresh(symbol, timeframe, emit_empty_bars);
            let s = called_all(a, calls);
            let bars = handed_out_by(s, call);
            bars.len() > 0 ==> {
                &&& bars[0].is_complete
                &&& is_bar_of(
                    bars[0],
                    s.price_volume_sum,
                    symbol,
                    timeframe,
                    pending(a, calls),
                )
            }
        }),
{
    bar_in_progress_is_that_of_its_ticks(symbol, timeframe, emit_empty_bars, calls);
}

/// A millisecond is the thousandth of a second, a minute is sixty seconds, and an hour
/// is sixty minutes.
pub proof fn units_of_time_fit_together(n: u64)
    ensures
        Timeframe::Seconds(n).millis() == 1_000 * n,
        Timeframe::Minutes(n).millis() == 60 * Timeframe::Seconds(n).millis(),
        Timeframe::Hours(n).millis() == 60 * Timeframe::Minutes(n).millis(),
{
}

/// A tick is accepted wherever its value, the sums that it goes into and the counts are
/// in range, and only there: no other number in it is a reason to refuse it. A flush is
/// refused only where the volume or the count of all bars is out of range.
pub proof fn only_numbers_out_of_range_are_refused(a: AggregatorView, t: TickView)
    requires
        view_wf(a),
    ensures
        ({
            let value = times(Some(t.price), Some(t.quantity));
            let b = a.current_bar->0;
            let sum = plus(Some(a.price_volume_sum), value);
            let volume = plus(Some(b.volume), Some(t.quantity));
            let counted = plus(Some(a.total_volume), Some(b.volume)) is Some && a.bars_emitted
                < u64::MAX;
            let start = start_of(t, a.timeframe);
            &&& a.current_bar is None ==> (fed(a, t) is Some <==> value is Some)
            &&& a.current_bar is Some && b.bar_start_ms == start ==> (fed(a, t) is Some <==> sum
                is Some && volume is Some && b.trade_count < u64::MAX && (volume->0.units == 0
                || over(sum, volume) is Some))
            &&& a.current_bar is Some && b.bar_start_ms != start && (!a.emit_empty_bars || start
                < b.bar_start_ms) ==> (fed(a, t) is Some <==> value is Some && counted)
            &&& a.current_bar is None ==> flushed(a) == Some(a)
            &&& a.current_bar is Some ==> (flushed(a) is Some <==> counted)
        }),
{
    lemma_window(a, t);
    let value = times(Some(t.price), Some(t.quantity));
    let s = AggregatorView { current_bar: Some(opened(a, t)), price_volume_sum: value->0, ..a };
    let bars = closed_bars(a, t);
    if a.current_bar is Some && a.current_bar->0.bar_start_ms != start_of(t, a.timeframe) {
        if !a.emit_empty_bars || start_of(t, a.timeframe) < a.current_bar->0.bar_start_ms {
            assert(bars.len() == 1);
            assert(bars.drop_last() =~= Seq::<BarView>::empty());
            assert(all_recorded(s, bars.drop_last()) == Some(s));
            assert(bars.last() == bars[0]);
        }
    } else {
        assert(bars =~= Seq::<BarView>::empty());
    }
}

/// A bar and a tick are seen as they are: each number as written, the time of a tick by
/// the clock of its exchange, and by the time of receipt where it has none.
pub proof fn ticks_and_bars_are_seen_as_they_are(b: OhlcvBar, t: NormalizedTick)
    ensures
        b@.symbol == b.symbol@ && b@.timeframe == b.timeframe && b@.bar_start_ms
            == b.bar_start_ms,
        b@.open == b.open.num() && b@.high == b.high.num() && b@.low == b.low.num(),
        b@.close == b.close.num() && b@.volume == b.volume.num(),
        b@.trade_count == b.trade_count,
        b@.is_complete == b.is_complete && b@.is_gap_fill == b.is_gap_fill,
        b.vwap is None <==> b@.vwap is None,
        b.vwap is Some ==> b@.vwap == Some(b.vwap->0.num()),
        t@.symbol == t.symbol@ && t@.price == t.price.num() && t@.quantity == t.quantity.num(),
        t.exchange_ts_ms is Some ==> t@.ts_ms == t.exchange_ts_ms->0,
        t.exchange_ts_ms is None ==> t@.ts_ms == t.received_at_ms,
{
}

} // verus!
