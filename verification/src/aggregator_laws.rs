//! Laws of the aggregator.
//!
//! They are stated over what feeding ticks does to the state of an aggregator,
//! [`fed`], and over the bars that a tick completes, [`closed_bars`].

use crate::aggregator::{
    all_recorded, closed_bars, closes_bar, completed, extended, fed, flushed, fresh, gap_bar,
    gap_bars, opened, view_wf, window_of, AggregatorView,
};
use crate::bar::BarView;
use crate::decimal::{
    fits, lemma_pow10_positive, max_mantissa, nought, over, plus, pow10, times, Num,
};
use crate::decimal_laws::{exact_operations_are_kept, is_decimal};
use crate::series::{highest, lowest, total};
use crate::tick::TickView;
use crate::timeframe::{lemma_aligned, Timeframe};
use vstd::prelude::*;

verus! {

/// Recording bars leaves all but the record as it was: their number is added to
/// the count, and the last of them is the last bar.
pub proof fn recording_counts_the_bars(a: AggregatorView, bars: Seq<BarView>)
    requires
        all_recorded(a, bars) is Some,
    ensures
        ({
            let s = all_recorded(a, bars)->0;
            &&& s.symbol == a.symbol
            &&& s.timeframe == a.timeframe
            &&& s.emit_empty_bars == a.emit_empty_bars
            &&& s.current_bar == a.current_bar
            &&& s.price_volume_sum == a.price_volume_sum
            &&& s.bars_emitted == a.bars_emitted + bars.len()
            &&& bars.len() == 0 ==> s == a
            &&& bars.len() > 0 ==> s.last_bar == Some(bars.last())
        }),
    decreases bars.len(),
{
    if bars.len() > 0 {
        recording_counts_the_bars(a, bars.drop_last());
    }
}

/// After a tick, the bar in progress is that of the window in which the tick
/// lies; it closes at the price of the tick, which its range holds, and no bar
/// was lost: the completed bars are counted.
pub proof fn tick_goes_into_the_bar_of_its_window(a: AggregatorView, t: TickView)
    requires
        view_wf(a),
        fed(a, t) is Some,
    ensures
        ({
            let s = fed(a, t)->0;
            let b = s.current_bar->0;
            &&& s.current_bar is Some
            &&& b.symbol == a.symbol && b.timeframe == a.timeframe
            &&& b.bar_start_ms <= t.ts_ms < b.bar_start_ms + a.timeframe.millis()
            &&& b.close == t.price
            &&& b.low.units <= t.price.units <= b.high.units
            &&& b.trade_count > 0
            &&& !b.is_complete
            &&& s.bars_emitted == a.bars_emitted + closed_bars(a, t).len()
            &&& closes_bar(a, t) ==> s.last_bar == Some(closed_bars(a, t).last())
            &&& !closes_bar(a, t) ==> s.last_bar == a.last_bar
        }),
{
    lemma_aligned(t.ts_ms as int, a.timeframe.millis());
    let value = times(Some(t.price), Some(t.quantity));
    if !closes_bar(a, t) {
        assert(closed_bars(a, t) =~= Seq::<BarView>::empty());
    }
    if a.current_bar is Some && !closes_bar(a, t) {
        let sum = plus(Some(a.price_volume_sum), value);
        let b = extended(a.current_bar->0, t, sum)->0;
        recording_counts_the_bars(
            AggregatorView { current_bar: Some(b), price_volume_sum: sum->0, ..a },
            closed_bars(a, t),
        );
    } else {
        recording_counts_the_bars(
            AggregatorView {
                current_bar: Some(opened(a, t)),
                price_volume_sum: value->0,
                ..a
            },
            closed_bars(a, t),
        );
    }
}

pub(crate) proof fn lemma_gap_bars_in_order(
    symbol: Seq<char>,
    timeframe: Timeframe,
    start: int,
    until: int,
    price: Num,
)
    requires
        timeframe.millis() > 0,
    ensures
        ({
            let bars = gap_bars(symbol, timeframe, start, until, price);
            let d = timeframe.millis();
            &&& forall|k: int|
                0 <= k < bars.len() ==> start + k * d < until && #[trigger] bars[k] == gap_bar(
                    symbol,
                    timeframe,
                    (start + k * d) as u64,
                    price,
                )
            &&& start + bars.len() * d >= until
        }),
    decreases
        (if start < until {
            until - start
        } else {
            0
        }),
{
    let d = timeframe.millis();
    let bars = gap_bars(symbol, timeframe, start, until, price);
    if start < until {
        let rest = gap_bars(symbol, timeframe, start + d, until, price);
        lemma_gap_bars_in_order(symbol, timeframe, start + d, until, price);
        assert(bars.len() == rest.len() + 1);
        assert(start + d + rest.len() * d == start + bars.len() * d) by (nonlinear_arith)
            requires
                bars.len() == rest.len() + 1,
        ;
        assert forall|k: int| 0 <= k < bars.len() implies start + k * d < until
            && #[trigger] bars[k] == gap_bar(symbol, timeframe, (start + k * d) as u64, price) by {
            if k > 0 {
                assert(bars[k] == rest[k - 1]);
                assert(start + d + (k - 1) * d == start + k * d) by (nonlinear_arith);
            }
        }
    }
}

/// The bars that a tick completes are the bar in progress and, where empty bars
/// are asked for, one bar for each window between it and that of the tick: in
/// order and without a hole, with no volume and at the last price.
pub proof fn skipped_windows_are_filled(a: AggregatorView, t: TickView)
    requires
        view_wf(a),
        closes_bar(a, t),
    ensures
        ({
            let bars = closed_bars(a, t);
            let b = a.current_bar->0;
            let d = a.timeframe.millis();
            &&& bars.len() >= 1
            &&& bars[0] == completed(b)
            &&& forall|k: int|
                1 <= k < bars.len() ==> b.bar_start_ms + k * d < window_of(a, t)
                    && #[trigger] bars[k] == gap_bar(
                    a.symbol,
                    a.timeframe,
                    (b.bar_start_ms + k * d) as u64,
                    b.close,
                )
            &&& a.emit_empty_bars ==> b.bar_start_ms + bars.len() * d >= window_of(a, t)
            &&& !a.emit_empty_bars || window_of(a, t) < b.bar_start_ms ==> bars.len() == 1
        }),
{
    let bars = closed_bars(a, t);
    let b = a.current_bar->0;
    let d = a.timeframe.millis();
    if a.emit_empty_bars {
        let rest = gap_bars(
            a.symbol,
            a.timeframe,
            b.bar_start_ms + d,
            window_of(a, t),
            b.close,
        );
        lemma_gap_bars_in_order(
            a.symbol,
            a.timeframe,
            b.bar_start_ms + d,
            window_of(a, t),
            b.close,
        );
        assert(b.bar_start_ms + d + rest.len() * d == b.bar_start_ms + bars.len() * d)
            by (nonlinear_arith)
            requires
                bars.len() == rest.len() + 1,
        ;
        assert forall|k: int| 1 <= k < bars.len() implies b.bar_start_ms + k * d < window_of(a, t)
            && #[trigger] bars[k] == gap_bar(
            a.symbol,
            a.timeframe,
            (b.bar_start_ms + k * d) as u64,
            b.close,
        ) by {
            assert(bars[k] == rest[k - 1]);
            assert(b.bar_start_ms + d + (k - 1) * d == b.bar_start_ms + k * d)
                by (nonlinear_arith);
        }
    }
}

/// A flush completes the bar in progress and leaves none; a second flush does
/// nothing.
pub proof fn flush_completes_the_bar(a: AggregatorView)
    requires
        flushed(a) is Some,
    ensures
        ({
            let s = flushed(a)->0;
            &&& s.current_bar is None
            &&& a.current_bar is Some ==> s.last_bar == Some(completed(a.current_bar->0))
                && s.bars_emitted == a.bars_emitted + 1
            &&& a.current_bar is None ==> s == a
            &&& flushed(s) == Some(s)
        }),
{
}

/// The state after ticks, one after the other.
pub open spec fn fed_all(a: AggregatorView, ticks: Seq<TickView>) -> Option<AggregatorView>
    decreases ticks.len(),
{
    if ticks.len() == 0 {
        Some(a)
    } else {
        match fed_all(a, ticks.drop_last()) {
            Some(s) => fed(s, ticks.last()),
            None => None,
        }
    }
}

/// The prices of ticks.
pub open spec fn prices(ticks: Seq<TickView>) -> spec_fn(int) -> Option<Num> {
    |i: int| Some(ticks[i].price)
}

/// The quantities of ticks.
pub open spec fn quantities(ticks: Seq<TickView>) -> spec_fn(int) -> Option<Num> {
    |i: int| Some(ticks[i].quantity)
}

/// The values of ticks.
pub open spec fn trade_values(ticks: Seq<TickView>) -> spec_fn(int) -> Option<Num> {
    |i: int| times(Some(ticks[i].price), Some(ticks[i].quantity))
}

/// The sum of `f` over the indices below `n`, which are one at least.
pub open spec fn added(n: int, f: spec_fn(int) -> Option<Num>) -> Option<Num>
    decreases n,
{
    if n <= 1 {
        f(0)
    } else {
        plus(added(n - 1, f), f(n - 1))
    }
}

/// The bar of ticks that lie in one window: it opens at the first price and
/// closes at the last one, its high is the highest and its low the lowest price,
/// and it adds up the quantities.
pub proof fn bar_sums_up_its_ticks(a: AggregatorView, ticks: Seq<TickView>)
    requires
        view_wf(a),
        a.current_bar is None,
        ticks.len() > 0,
        forall|i: int|
            0 <= i < ticks.len() ==> window_of(a, #[trigger] ticks[i]) == window_of(a, ticks[0]),
        fed_all(a, ticks) is Some,
    ensures
        ({
            let s = fed_all(a, ticks)->0;
            let n = ticks.len() as int;
            let b = s.current_bar->0;
            &&& s == (AggregatorView {
                current_bar: s.current_bar,
                price_volume_sum: s.price_volume_sum,
                ..a
            })
            &&& s.current_bar is Some
            &&& b.symbol == a.symbol
            &&& b.timeframe == a.timeframe
            &&& b.bar_start_ms == window_of(a, ticks[0])
            &&& b.open == ticks[0].price
            &&& b.close == ticks.last().price
            &&& Some(b.high) == highest(n, prices(ticks))
            &&& Some(b.low) == lowest(n, prices(ticks))
            &&& Some(b.volume) == added(n, quantities(ticks))
            &&& Some(s.price_volume_sum) == added(n, trade_values(ticks))
            &&& b.trade_count == n
            &&& !b.is_complete && !b.is_gap_fill
            &&& n == 1 ==> b.vwap == Some(ticks[0].price)
            &&& n > 1 ==> b.vwap == (if b.volume.units == 0 {
                None
            } else {
                over(added(n, trade_values(ticks)), added(n, quantities(ticks)))
            })
        }),
    decreases ticks.len(),
{
    let n = ticks.len() as int;
    let before = ticks.drop_last();
    let t = ticks.last();
    assert(window_of(a, ticks[n - 1]) == window_of(a, ticks[0]));
    lemma_aligned(ticks[0].ts_ms as int, a.timeframe.millis());
    assert forall|s: AggregatorView| #[trigger] all_recorded(s, Seq::<BarView>::empty()) == Some(
        s,
    ) by {}
    if n == 1 {
        assert(fed_all(a, before) == Some(a));
        assert(closed_bars(a, t) =~= Seq::<BarView>::empty());
    } else {
        assert forall|i: int| 0 <= i < before.len() implies window_of(a, #[trigger] before[i])
            == window_of(a, before[0]) by {
            assert(before[i] == ticks[i]);
        }
        bar_sums_up_its_ticks(a, before);
        let s = fed_all(a, before)->0;
        assert(closed_bars(s, t) =~= Seq::<BarView>::empty());
        lemma_same_values(before, ticks, n - 1);
    }
}

/// What is read off the first ticks does not depend on those that follow.
pub(crate) proof fn lemma_same_values(before: Seq<TickView>, ticks: Seq<TickView>, n: int)
    requires
        1 <= n <= before.len() <= ticks.len(),
        forall|i: int| 0 <= i < before.len() ==> before[i] == #[trigger] ticks[i],
    ensures
        highest(n, prices(before)) == highest(n, prices(ticks)),
        lowest(n, prices(before)) == lowest(n, prices(ticks)),
        added(n, quantities(before)) == added(n, quantities(ticks)),
        added(n, trade_values(before)) == added(n, trade_values(ticks)),
    decreases n,
{
    assert(before[n - 1] == ticks[n - 1]);
    if n > 1 {
        lemma_same_values(before, ticks, n - 1);
    }
}

/// The volumes of bars.
pub open spec fn bar_volumes(bars: Seq<BarView>) -> spec_fn(int) -> Option<Num> {
    |i: int| Some(bars[i].volume)
}

/// A record that starts empty adds up the volumes of the bars, and keeps the
/// highest and the lowest of them.
pub proof fn record_sums_up_the_bars(a: AggregatorView, bars: Seq<BarView>)
    requires
        a.total_volume == nought(),
        a.peak_volume is None,
        a.min_volume is None,
        all_recorded(a, bars) is Some,
    ensures
        ({
            let s = all_recorded(a, bars)->0;
            let n = bars.len() as int;
            &&& Some(s.total_volume) == total(n, bar_volumes(bars))
            &&& s.peak_volume == highest(n, bar_volumes(bars))
            &&& s.min_volume == lowest(n, bar_volumes(bars))
        }),
    decreases bars.len(),
{
    let n = bars.len() as int;
    if n > 0 {
        let before = bars.drop_last();
        record_sums_up_the_bars(a, before);
        lemma_same_volumes(before, bars, n - 1);
    }
}

proof fn lemma_same_volumes(before: Seq<BarView>, bars: Seq<BarView>, n: int)
    requires
        0 <= n <= before.len() <= bars.len(),
        forall|i: int| 0 <= i < before.len() ==> before[i] == #[trigger] bars[i],
    ensures
        total(n, bar_volumes(before)) == total(n, bar_volumes(bars)),
        highest(n, bar_volumes(before)) == highest(n, bar_volumes(bars)),
        lowest(n, bar_volumes(before)) == lowest(n, bar_volumes(bars)),
    decreases n,
{
    if n > 0 {
        assert(before[n - 1] == bars[n - 1]);
        lemma_same_volumes(before, bars, n - 1);
    }
}

/// A call that moves an aggregator on.
pub enum Call {
    /// A tick is fed.
    Feed(TickView),
    /// The bar in progress is flushed.
    Flush,
}

/// Whether a call changes the aggregator: a tick of its symbol or a flush that
/// takes no number out of range.
pub open spec fn is_accepted(a: AggregatorView, call: Call) -> bool {
    match call {
        Call::Feed(t) => t.symbol == a.symbol && fed(a, t) is Some,
        Call::Flush => flushed(a) is Some,
    }
}

/// The state after a call; one that is refused changes nothing.
pub open spec fn called(a: AggregatorView, call: Call) -> AggregatorView {
    if is_accepted(a, call) {
        match call {
            Call::Feed(t) => fed(a, t)->0,
            Call::Flush => flushed(a)->0,
        }
    } else {
        a
    }
}

/// The bars that a call hands out.
pub open spec fn handed_out_by(a: AggregatorView, call: Call) -> Seq<BarView> {
    if is_accepted(a, call) {
        match call {
            Call::Feed(t) => closed_bars(a, t),
            Call::Flush => match a.current_bar {
                Some(b) => seq![completed(b)],
                None => Seq::empty(),
            },
        }
    } else {
        Seq::empty()
    }
}

/// The state after calls, one after the other.
pub open spec fn called_all(a: AggregatorView, calls: Seq<Call>) -> AggregatorView
    decreases calls.len(),
{
    if calls.len() == 0 {
        a
    } else {
        called(called_all(a, calls.drop_last()), calls.last())
    }
}

/// The bars that calls hand out, in order.
pub open spec fn handed_out(a: AggregatorView, calls: Seq<Call>) -> Seq<BarView>
    decreases calls.len(),
{
    if calls.len() == 0 {
        Seq::empty()
    } else {
        handed_out(a, calls.drop_last()) + handed_out_by(
            called_all(a, calls.drop_last()),
            calls.last(),
        )
    }
}

/// What a call adds to the volume.
pub open spec fn quantity_of(a: AggregatorView, call: Call) -> int {
    match call {
        Call::Feed(t) => if is_accepted(a, call) {
            t.quantity.units
        } else {
            0
        },
        Call::Flush => 0,
    }
}

/// The exact sum of the quantities of the accepted ticks.
pub open spec fn quantity_sum(a: AggregatorView, calls: Seq<Call>) -> int
    decreases calls.len(),
{
    if calls.len() == 0 {
        0
    } else {
        quantity_sum(a, calls.drop_last()) + quantity_of(
            called_all(a, calls.drop_last()),
            calls.last(),
        )
    }
}

/// The absolute value of an integer.
pub open spec fn size(n: int) -> int {
    if n < 0 {
        -n
    } else {
        n
    }
}

/// The exact sum of the sizes of the quantities of the accepted ticks.
pub open spec fn size_sum(a: AggregatorView, calls: Seq<Call>) -> int
    decreases calls.len(),
{
    if calls.len() == 0 {
        0
    } else {
        size_sum(a, calls.drop_last()) + size(
            quantity_of(called_all(a, calls.drop_last()), calls.last()),
        )
    }
}

/// The bar in progress has no part in the record.
proof fn lemma_record_apart(
    a: AggregatorView,
    bars: Seq<BarView>,
    current_bar: Option<BarView>,
    price_volume_sum: Num,
)
    ensures
        all_recorded(AggregatorView { current_bar, price_volume_sum, ..a }, bars) == (
        match all_recorded(a, bars) {
            Some(s) => Some(AggregatorView { current_bar, price_volume_sum, ..s }),
            None => None,
        }),
    decreases bars.len(),
{
    if bars.len() > 0 {
        lemma_record_apart(a, bars.drop_last(), current_bar, price_volume_sum);
    }
}

proof fn lemma_record_in_parts(a: AggregatorView, first: Seq<BarView>, later: Seq<BarView>)
    requires
        all_recorded(a, first) is Some,
    ensures
        all_recorded(a, first + later) == all_recorded(all_recorded(a, first)->0, later),
    decreases later.len(),
{
    if later.len() == 0 {
        assert(first + later =~= first);
    } else {
        assert((first + later).drop_last() =~= first + later.drop_last());
        assert((first + later).last() == later.last());
        lemma_record_in_parts(a, first, later.drop_last());
    }
}

/// A call records the bars that it hands out, and changes nothing else but the
/// bar in progress.
proof fn lemma_call_records(s: AggregatorView, call: Call)
    ensures
        ({
            let next = called(s, call);
            all_recorded(s, handed_out_by(s, call)) == Some(
                AggregatorView {
                    current_bar: s.current_bar,
                    price_volume_sum: s.price_volume_sum,
                    ..next
                },
            )
        }),
{
    let next = handed_out_by(s, call);
    lemma_record_apart(s, next, s.current_bar, s.price_volume_sum);
    assert(all_recorded(s, Seq::empty()) == Some(s));
    match call {
        Call::Feed(t) => {
            if is_accepted(s, call) {
                let value = times(Some(t.price), Some(t.quantity));
                if s.current_bar is Some && !closes_bar(s, t) {
                    let sum = plus(Some(s.price_volume_sum), value);
                    let b = extended(s.current_bar->0, t, sum)->0;
                    lemma_record_apart(s, next, Some(b), sum->0);
                } else {
                    lemma_record_apart(s, next, Some(opened(s, t)), value->0);
                }
            }
        },
        Call::Flush => {
            if s.current_bar is Some && is_accepted(s, call) {
                lemma_record_apart(s, next, None, s.price_volume_sum);
                assert(next.drop_last() =~= Seq::<BarView>::empty());
                reveal_with_fuel(all_recorded, 2);
            }
        },
    }
}

/// After any calls, the record is that of the bars which they handed out.
pub proof fn record_is_that_of_the_bars_handed_out(a: AggregatorView, calls: Seq<Call>)
    ensures
        ({
            let s = called_all(a, calls);
            all_recorded(a, handed_out(a, calls)) == Some(
                AggregatorView {
                    current_bar: a.current_bar,
                    price_volume_sum: a.price_volume_sum,
                    ..s
                },
            )
        }),
    decreases calls.len(),
{
    if calls.len() > 0 {
        let before = calls.drop_last();
        record_is_that_of_the_bars_handed_out(a, before);
        let s = called_all(a, before);
        let first = handed_out(a, before);
        let next = handed_out_by(s, calls.last());
        lemma_record_in_parts(a, first, next);
        lemma_call_records(s, calls.last());
        lemma_record_apart(s, next, a.current_bar, a.price_volume_sum);
    }
}

/// What a new aggregator says of volumes after any ticks and flushes is what the
/// bars that it handed out add up to: their number, their volume, and the highest
/// and the lowest volume of one.
pub proof fn totals_are_those_of_the_bars_handed_out(
    symbol: Seq<char>,
    timeframe: Timeframe,
    emit_empty_bars: bool,
    calls: Seq<Call>,
)
    ensures
        ({
            let a = fresh(symbol, timeframe, emit_empty_bars);
            let s = called_all(a, calls);
            let bars = handed_out(a, calls);
            let n = bars.len() as int;
            &&& s.bars_emitted == n
            &&& s.last_bar == (if n > 0 {
                Some(bars.last())
            } else {
                None
            })
            &&& Some(s.total_volume) == total(n, bar_volumes(bars))
            &&& s.peak_volume == highest(n, bar_volumes(bars))
            &&& s.min_volume == lowest(n, bar_volumes(bars))
        }),
{
    let a = fresh(symbol, timeframe, emit_empty_bars);
    let bars = handed_out(a, calls);
    record_is_that_of_the_bars_handed_out(a, calls);
    recording_counts_the_bars(a, bars);
    record_sums_up_the_bars(a, bars);
}

/// Whether the sums of the quantities need no rounding: the quantities have
/// `place` decimal places, and so have all of them together.
pub open spec fn sums_are_exact(a: AggregatorView, calls: Seq<Call>, place: nat) -> bool {
    &&& place <= 28
    &&& forall|i: int|
        0 <= i < calls.len() ==> quantity_of(
            called_all(a, calls.take(i)),
            #[trigger] calls[i],
        ) % pow10((28 - place) as nat) == 0
    &&& size_sum(a, calls) <= max_mantissa() * pow10((28 - place) as nat)
}

/// The volume of the bar in progress.
pub open spec fn open_volume(a: AggregatorView) -> int {
    match a.current_bar {
        Some(b) => b.volume.units,
        None => 0,
    }
}

proof fn lemma_on_grid(n: int, place: nat)
    requires
        place <= 28,
        n % pow10((28 - place) as nat) == 0,
        size(n) <= max_mantissa() * pow10((28 - place) as nat),
    ensures
        is_decimal(n),
{
    let u = pow10((28 - place) as nat);
    lemma_pow10_positive((28 - place) as nat);
    let m = n / u;
    vstd::arithmetic::div_mod::lemma_fundamental_div_mod(n, u);
    assert(n == m * u) by (nonlinear_arith)
        requires
            n == u * m + 0,
    ;
    assert(-max_mantissa() <= m <= max_mantissa()) by (nonlinear_arith)
        requires
            -(max_mantissa() * u) <= m * u <= max_mantissa() * u,
            u > 0,
    ;
    assert(fits(m));
}

proof fn lemma_grid_sum(x: int, y: int, u: int)
    requires
        u > 0,
        x % u == 0,
        y % u == 0,
    ensures
        (x + y) % u == 0,
{
    vstd::arithmetic::div_mod::lemma_add_mod_noop(x, y, u);
    vstd::arithmetic::div_mod::lemma_small_mod(0, u as nat);
}

/// Recording bars without volume leaves the volume as it was.
proof fn lemma_no_volume(a: AggregatorView, bars: Seq<BarView>)
    requires
        is_decimal(a.total_volume.units),
        all_recorded(a, bars) is Some,
        forall|i: int| 0 <= i < bars.len() ==> (#[trigger] bars[i]).volume.units == 0,
    ensures
        all_recorded(a, bars)->0.total_volume.units == a.total_volume.units,
    decreases bars.len(),
{
    if bars.len() > 0 {
        assert(bars[bars.len() - 1].volume.units == 0);
        assert forall|i: int| 0 <= i < bars.drop_last().len() implies (
        #[trigger] bars.drop_last()[i]).volume.units == 0 by {
            assert(bars[i].volume.units == 0);
        }
        lemma_no_volume(a, bars.drop_last());
        exact_operations_are_kept(a.total_volume.units, 0, a.total_volume.units);
    }
}

proof fn lemma_gaps_have_no_volume(
    symbol: Seq<char>,
    timeframe: Timeframe,
    start: int,
    until: int,
    price: Num,
)
    ensures
        forall|i: int|
            0 <= i < gap_bars(symbol, timeframe, start, until, price).len() ==> (
            #[trigger] gap_bars(symbol, timeframe, start, until, price)[i]).volume.units == 0,
    decreases
        (if start < until {
            until - start
        } else {
            0
        }),
{
    if start < until && timeframe.millis() > 0 {
        let d = timeframe.millis();
        let rest = gap_bars(symbol, timeframe, start + d, until, price);
        let all = gap_bars(symbol, timeframe, start, until, price);
        lemma_gaps_have_no_volume(symbol, timeframe, start + d, until, price);
        assert forall|i: int| 0 <= i < all.len() implies (#[trigger] all[i]).volume.units == 0 by {
            if i > 0 {
                assert(rest[i - 1].volume.units == 0);
            }
        }
    }
}

/// The volume of what a tick completes is that of the bar in progress.
proof fn lemma_closed_volume(s: AggregatorView, bars: Seq<BarView>, b: BarView, rest: Seq<BarView>)
    requires
        bars == seq![completed(b)] + rest,
        forall|i: int| 0 <= i < rest.len() ==> (#[trigger] rest[i]).volume.units == 0,
        is_decimal(s.total_volume.units + b.volume.units),
        all_recorded(s, bars) is Some,
    ensures
        all_recorded(s, bars)->0.total_volume.units == s.total_volume.units + b.volume.units,
{
    let one = seq![completed(b)];
    assert(one.drop_last() =~= Seq::<BarView>::empty());
    assert(bars.take(1) =~= one);
    exact_operations_are_kept(
        s.total_volume.units,
        b.volume.units,
        s.total_volume.units + b.volume.units,
    );
    reveal_with_fuel(all_recorded, 2);
    lemma_prefix_recorded(s, one, rest);
    lemma_record_in_parts(s, one, rest);
    lemma_no_volume(all_recorded(s, one)->0, rest);
}

proof fn lemma_prefix_recorded(a: AggregatorView, first: Seq<BarView>, later: Seq<BarView>)
    requires
        all_recorded(a, first + later) is Some,
    ensures
        all_recorded(a, first) is Some,
    decreases later.len(),
{
    if later.len() == 0 {
        assert(first + later =~= first);
    } else {
        assert((first + later).drop_last() =~= first + later.drop_last());
        lemma_prefix_recorded(a, first, later.drop_last());
    }
}

/// One call adds its quantity to the volume, completed and in progress together.
proof fn lemma_call_adds_its_quantity(s: AggregatorView, call: Call, place: nat, sizes: int)
    requires
        place <= 28,
        s.total_volume.units % pow10((28 - place) as nat) == 0,
        open_volume(s) % pow10((28 - place) as nat) == 0,
        quantity_of(s, call) % pow10((28 - place) as nat) == 0,
        size(s.total_volume.units) + size(open_volume(s)) <= sizes,
        sizes + size(quantity_of(s, call)) <= max_mantissa() * pow10((28 - place) as nat),
    ensures
        ({
            let next = called(s, call);
            let q = quantity_of(s, call);
            &&& next.total_volume.units + open_volume(next) == s.total_volume.units + open_volume(s)
                + q
            &&& next.total_volume.units % pow10((28 - place) as nat) == 0
            &&& open_volume(next) % pow10((28 - place) as nat) == 0
            &&& size(next.total_volume.units) + size(open_volume(next)) <= sizes + size(q)
        }),
{
    let u = pow10((28 - place) as nat);
    lemma_pow10_positive((28 - place) as nat);
    let q = quantity_of(s, call);
    let v = open_volume(s);
    let next = called(s, call);
    lemma_grid_sum(v, q, u);
    lemma_grid_sum(s.total_volume.units, v, u);
    lemma_on_grid(v + q, place);
    lemma_on_grid(s.total_volume.units + v, place);
    lemma_on_grid(s.total_volume.units, place);
    let bars = handed_out_by(s, call);
    lemma_call_records(s, call);
    match call {
        Call::Feed(t) => {
            if is_accepted(s, call) {
                let value = times(Some(t.price), Some(t.quantity));
                if closes_bar(s, t) {
                    let b = s.current_bar->0;
                    let rest = if s.emit_empty_bars {
                        gap_bars(
                            s.symbol,
                            s.timeframe,
                            b.bar_start_ms + s.timeframe.millis(),
                            window_of(s, t),
                            b.close,
                        )
                    } else {
                        Seq::empty()
                    };
                    lemma_gaps_have_no_volume(
                        s.symbol,
                        s.timeframe,
                        b.bar_start_ms + s.timeframe.millis(),
                        window_of(s, t),
                        b.close,
                    );
                    assert(bars =~= seq![completed(b)] + rest);
                    lemma_closed_volume(s, bars, b, rest);
                    recording_counts_the_bars(
                        AggregatorView {
                            current_bar: Some(opened(s, t)),
                            price_volume_sum: value->0,
                            ..s
                        },
                        bars,
                    );
                } else {
                    assert(bars =~= Seq::<BarView>::empty());
                    assert(all_recorded(s, bars) == Some(s));
                    if s.current_bar is Some {
                        let sum = plus(Some(s.price_volume_sum), value);
                        let b = extended(s.current_bar->0, t, sum)->0;
                        exact_operations_are_kept(v, q, v + q);
                        assert(all_recorded(
                            AggregatorView {
                                current_bar: Some(b),
                                price_volume_sum: sum->0,
                                ..s
                            },
                            bars,
                        ) == Some(next));
                        assert(open_volume(next) == v + q);
                    } else {
                        assert(open_volume(next) == q);
                    }
                }
            }
        },
        Call::Flush => {
            if s.current_bar is Some && is_accepted(s, call) {
                let b = s.current_bar->0;
                assert(bars =~= seq![completed(b)] + Seq::<BarView>::empty());
                lemma_closed_volume(s, bars, b, Seq::empty());
            }
        },
    }
}

/// No quantity is lost: where the sums need no rounding, the volume of the bars
/// that a new aggregator handed out and that of the bar in progress are together
/// the sum of the quantities of all ticks that it accepted, whatever flushes came
/// between them.
pub proof fn every_quantity_is_kept(
    symbol: Seq<char>,
    timeframe: Timeframe,
    emit_empty_bars: bool,
    calls: Seq<Call>,
    place: nat,
)
    requires
        sums_are_exact(fresh(symbol, timeframe, emit_empty_bars), calls, place),
    ensures
        ({
            let a = fresh(symbol, timeframe, emit_empty_bars);
            let s = called_all(a, calls);
            s.total_volume.units + open_volume(s) == quantity_sum(a, calls)
        }),
{
    lemma_every_quantity_is_kept(symbol, timeframe, emit_empty_bars, calls, place);
}

proof fn lemma_every_quantity_is_kept(
    symbol: Seq<char>,
    timeframe: Timeframe,
    emit_empty_bars: bool,
    calls: Seq<Call>,
    place: nat,
)
    requires
        sums_are_exact(fresh(symbol, timeframe, emit_empty_bars), calls, place),
    ensures
        ({
            let a = fresh(symbol, timeframe, emit_empty_bars);
            let s = called_all(a, calls);
            &&& s.total_volume.units + open_volume(s) == quantity_sum(a, calls)
            &&& s.total_volume.units % pow10((28 - place) as nat) == 0
            &&& open_volume(s) % pow10((28 - place) as nat) == 0
            &&& size(s.total_volume.units) + size(open_volume(s)) <= size_sum(a, calls)
        }),
    decreases calls.len(),
{
    lemma_pow10_positive((28 - place) as nat);
    if calls.len() > 0 {
        let a = fresh(symbol, timeframe, emit_empty_bars);
        let before = calls.drop_last();
        assert forall|i: int| 0 <= i < before.len() implies quantity_of(
            called_all(a, before.take(i)),
            #[trigger] before[i],
        ) % pow10((28 - place) as nat) == 0 by {
            assert(before[i] == calls[i]);
            assert(before.take(i) =~= calls.take(i));
        }
        lemma_every_quantity_is_kept(symbol, timeframe, emit_empty_bars, before, place);
        assert(calls[calls.len() - 1] == calls.last());
        assert(calls.take(calls.len() - 1) =~= before);
        lemma_call_adds_its_quantity(
            called_all(a, before),
            calls.last(),
            place,
            size_sum(a, before),
        );
    }
}

} // verus!
