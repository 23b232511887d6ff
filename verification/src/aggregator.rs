//! Real-time tick-to-OHLCV aggregation at arbitrary timeframes.
//!
//! Ticks go in, bars come out: a bar is completed by the first tick of another
//! bar window, or by a flush. What an aggregator does is stated over its view,
//! [`AggregatorView`], by [`fed`] and [`flushed`].

use crate::aggregator_laws::recording_counts_the_bars;
use crate::bar::{BarView, OhlcvBar};
use crate::decimal::{
    is_nought, larger, nought, over, plus, smaller, times, whole, yields, Decimal, Num,
};
use crate::error::StreamError;
use crate::fraction::{fraction_of, Fraction};
use crate::tick::{NormalizedTick, TickView};
use crate::timeframe::{aligned, Timeframe};
use vstd::prelude::*;
use vstd::string::*;

verus! {

/// The state of an aggregator, with prices and volumes as numbers.
pub struct AggregatorView {
    /// The symbol.
    pub symbol: Seq<char>,
    /// The timeframe.
    pub timeframe: Timeframe,
    /// The bar in progress.
    pub current_bar: Option<BarView>,
    /// The last completed bar.
    pub last_bar: Option<BarView>,
    /// Whether skipped bar windows are filled.
    pub emit_empty_bars: bool,
    /// The number of completed bars.
    pub bars_emitted: u64,
    /// The sum of `price × quantity` in the bar in progress.
    pub price_volume_sum: Num,
    /// The volume of all completed bars.
    pub total_volume: Num,
    /// The greatest volume of a completed bar.
    pub peak_volume: Option<Num>,
    /// The least volume of a completed bar.
    pub min_volume: Option<Num>,
}

/// The bars that `feed` hands out, as views.
pub open spec fn bar_views(bars: Seq<OhlcvBar>) -> Seq<BarView> {
    bars.map_values(|b: OhlcvBar| b@)
}

/// A bar whose window is closed.
pub open spec fn completed(b: BarView) -> BarView {
    BarView { is_complete: true, ..b }
}

/// The bar for a window in which there was no tick: no volume, and the last
/// price throughout.
pub open spec fn gap_bar(
    symbol: Seq<char>,
    timeframe: Timeframe,
    start: u64,
    price: Num,
) -> BarView {
    BarView {
        symbol,
        timeframe,
        bar_start_ms: start,
        open: price,
        high: price,
        low: price,
        close: price,
        volume: nought(),
        trade_count: 0,
        is_complete: true,
        is_gap_fill: true,
        vwap: None,
    }
}

/// The bars for the windows from `start` on that lie before `until`.
pub open spec fn gap_bars(
    symbol: Seq<char>,
    timeframe: Timeframe,
    start: int,
    until: int,
    price: Num,
) -> Seq<BarView>
    decreases
        (if start < until {
            until - start
        } else {
            0
        }),
{
    if start >= until || timeframe.millis() <= 0 {
        Seq::empty()
    } else {
        seq![gap_bar(symbol, timeframe, start as u64, price)] + gap_bars(
            symbol,
            timeframe,
            start + timeframe.millis(),
            until,
            price,
        )
    }
}

/// The start of the bar window that a tick belongs to.
pub open spec fn window_of(a: AggregatorView, t: TickView) -> int {
    aligned(t.ts_ms as int, a.timeframe.millis())
}

/// Whether a tick belongs to another window than the bar in progress.
pub open spec fn closes_bar(a: AggregatorView, t: TickView) -> bool {
    a.current_bar is Some && a.current_bar->0.bar_start_ms != window_of(a, t)
}

/// The bars that a tick completes: none, or the bar in progress and, where that
/// is asked for, the bars for the windows between it and the tick.
pub open spec fn closed_bars(a: AggregatorView, t: TickView) -> Seq<BarView> {
    if closes_bar(a, t) {
        let b = a.current_bar->0;
        if a.emit_empty_bars {
            seq![completed(b)] + gap_bars(
                a.symbol,
                a.timeframe,
                b.bar_start_ms + a.timeframe.millis(),
                window_of(a, t),
                b.close,
            )
        } else {
            seq![completed(b)]
        }
    } else {
        Seq::empty()
    }
}

/// The bar that a tick opens.
pub open spec fn opened(a: AggregatorView, t: TickView) -> BarView {
    BarView {
        symbol: a.symbol,
        timeframe: a.timeframe,
        bar_start_ms: window_of(a, t) as u64,
        open: t.price,
        high: t.price,
        low: t.price,
        close: t.price,
        volume: t.quantity,
        trade_count: 1,
        is_complete: false,
        is_gap_fill: false,
        vwap: Some(t.price),
    }
}

/// The bar in progress with one more tick, where `sum` is the sum of
/// `price × quantity` with the tick; `None` where a number is out of range.
pub open spec fn extended(b: BarView, t: TickView, sum: Option<Num>) -> Option<BarView> {
    let volume = plus(Some(b.volume), Some(t.quantity));
    let vwap = over(sum, volume);
    if volume is None || b.trade_count == u64::MAX || (!is_nought(volume) && vwap is None) {
        None
    } else {
        Some(
            BarView {
                high: if t.price.units > b.high.units {
                    t.price
                } else {
                    b.high
                },
                low: if t.price.units < b.low.units {
                    t.price
                } else {
                    b.low
                },
                close: t.price,
                volume: volume->0,
                trade_count: (b.trade_count + 1) as u64,
                vwap: if is_nought(volume) {
                    None
                } else {
                    vwap
                },
                ..b
            },
        )
    }
}

/// The state after a bar was completed: it is counted, and it is the last one.
pub open spec fn recorded(a: AggregatorView, b: BarView) -> Option<AggregatorView> {
    match plus(Some(a.total_volume), Some(b.volume)) {
        Some(total_volume) if a.bars_emitted < u64::MAX => Some(
            AggregatorView {
                last_bar: Some(b),
                bars_emitted: (a.bars_emitted + 1) as u64,
                total_volume,
                peak_volume: match a.peak_volume {
                    Some(v) => larger(Some(v), Some(b.volume)),
                    None => Some(b.volume),
                },
                min_volume: match a.min_volume {
                    Some(v) => smaller(Some(v), Some(b.volume)),
                    None => Some(b.volume),
                },
                ..a
            },
        ),
        _ => None,
    }
}

/// The state after bars were completed, one after the other.
pub open spec fn all_recorded(a: AggregatorView, bars: Seq<BarView>) -> Option<AggregatorView>
    decreases bars.len(),
{
    if bars.len() == 0 {
        Some(a)
    } else {
        match all_recorded(a, bars.drop_last()) {
            Some(before) => recorded(before, bars.last()),
            None => None,
        }
    }
}

/// The state after a tick of the symbol; `None` where a number is out of range.
pub open spec fn fed(a: AggregatorView, t: TickView) -> Option<AggregatorView> {
    let value = times(Some(t.price), Some(t.quantity));
    let ticked = if a.current_bar is Some && !closes_bar(a, t) {
        let sum = plus(Some(a.price_volume_sum), value);
        match extended(a.current_bar->0, t, sum) {
            Some(b) if sum is Some => Some(
                AggregatorView { current_bar: Some(b), price_volume_sum: sum->0, ..a },
            ),
            _ => None,
        }
    } else {
        match value {
            Some(v) => Some(
                AggregatorView { current_bar: Some(opened(a, t)), price_volume_sum: v, ..a },
            ),
            None => None,
        }
    };
    match ticked {
        Some(s) => all_recorded(s, closed_bars(a, t)),
        None => None,
    }
}

/// The state after a flush; `None` where a number is out of range.
pub open spec fn flushed(a: AggregatorView) -> Option<AggregatorView> {
    match a.current_bar {
        Some(b) => recorded(AggregatorView { current_bar: None, ..a }, completed(b)),
        None => Some(a),
    }
}

/// The text of the reason for a tick of another symbol.
pub open spec fn symbol_reason(tick: Seq<char>, aggregator: Seq<char>) -> Seq<char> {
    "tick symbol '"@ + tick + "' does not match aggregator '"@ + aggregator + "'"@
}

/// The text of the reason for a tick that takes a number out of range.
pub open spec fn range_reason() -> Seq<char> {
    "tick takes a price, a volume or a count out of range"@
}

/// Whether a bar is one of this aggregator's: of its symbol and timeframe,
/// aligned, and with the high the highest and the low the lowest price.
pub open spec fn belongs(a: AggregatorView, b: BarView) -> bool {
    &&& b.symbol == a.symbol
    &&& b.timeframe == a.timeframe
    &&& aligned(b.bar_start_ms as int, a.timeframe.millis()) == b.bar_start_ms
    &&& b.low.units <= b.open.units <= b.high.units
    &&& b.low.units <= b.close.units <= b.high.units
}

/// Whether a bar is one that ticks go into: it has at least one, and it is not
/// complete.
pub open spec fn in_progress(b: BarView) -> bool {
    b.trade_count > 0 && !b.is_gap_fill && !b.is_complete
}

/// What holds of every state.
pub open spec fn view_wf(a: AggregatorView) -> bool {
    &&& 0 < a.timeframe.millis() <= u64::MAX
    &&& a.current_bar is Some ==> belongs(a, a.current_bar->0) && in_progress(a.current_bar->0)
    &&& a.last_bar is Some ==> belongs(a, a.last_bar->0) && a.last_bar->0.is_complete
    &&& a.last_bar is Some <==> a.bars_emitted > 0
    &&& a.peak_volume is Some <==> a.bars_emitted > 0
    &&& a.min_volume is Some <==> a.bars_emitted > 0
    &&& a.last_bar is Some ==> a.min_volume->0.units <= a.last_bar->0.volume.units
        <= a.peak_volume->0.units
}

/// What is known of the completed bars together.
#[derive(Clone, Copy)]
struct Record {
    /// Total number of completed bars emitted by this aggregator.
    bars_emitted: u64,
    /// Cumulative volume across all completed bars (does not include the current partial bar).
    total_volume: Decimal,
    /// Maximum single-bar volume seen across all completed bars.
    peak_volume: Option<Decimal>,
    /// Minimum single-bar volume seen across all completed bars.
    min_volume: Option<Decimal>,
}

/// The view of an optional number.
spec fn num_view(d: Option<Decimal>) -> Option<Num> {
    match d {
        Some(d) => Some(d.num()),
        None => None,
    }
}

impl Record {
    /// Whether this is the record of an aggregator in the state `a`.
    spec fn is_of(self, a: AggregatorView) -> bool {
        &&& self.bars_emitted == a.bars_emitted
        &&& self.total_volume.num() == a.total_volume
        &&& num_view(self.peak_volume) == a.peak_volume
        &&& num_view(self.min_volume) == a.min_volume
    }

    /// The record before any bar was completed.
    fn new() -> (r: Record)
        ensures
            r.bars_emitted == 0,
            r.total_volume.num() == nought(),
            r.peak_volume is None,
            r.min_volume is None,
    {
        Record {
            bars_emitted: 0,
            total_volume: Decimal::zero(),
            peak_volume: None,
            min_volume: None,
        }
    }

    /// The record with one more completed bar; `None` where a number is out of
    /// range.
    fn with(self, bar: &OhlcvBar, Ghost(a): Ghost<AggregatorView>) -> (r: Option<Record>)
        requires
            self.is_of(a),
        ensures
            match r {
                Some(record) => recorded(a, bar@) is Some && record.is_of(recorded(a, bar@)->0),
                None => recorded(a, bar@) is None,
            },
    {
        if self.bars_emitted == u64::MAX {
            return None;
        }
        let total_volume = match self.total_volume.checked_add(bar.volume) {
            Some(sum) => sum,
            None => {
                return None;
            },
        };
        Some(
            Record {
                bars_emitted: self.bars_emitted + 1,
                total_volume,
                peak_volume: Some(
                    match self.peak_volume {
                        Some(prev) => prev.max(bar.volume),
                        None => bar.volume,
                    },
                ),
                min_volume: Some(
                    match self.min_volume {
                        Some(prev) => prev.min(bar.volume),
                        None => bar.volume,
                    },
                ),
            },
        )
    }

    /// The record with more completed bars, one after the other; `None` where a
    /// number is out of range.
    fn with_all(self, bars: &Vec<OhlcvBar>, Ghost(a): Ghost<AggregatorView>) -> (r: Option<Record>)
        requires
            self.is_of(a),
        ensures
            match r {
                Some(record) => {
                    &&& all_recorded(a, bar_views(bars@)) is Some
                    &&& record.is_of(all_recorded(a, bar_views(bars@))->0)
                },
                None => all_recorded(a, bar_views(bars@)) is None,
            },
    {
        let ghost views = bar_views(bars@);
        let mut record = self;
        let mut i: usize = 0;
        assert(views.take(0) =~= Seq::<BarView>::empty());
        while i < bars.len()
            invariant
                i <= bars.len(),
                views == bar_views(bars@),
                all_recorded(a, views.take(i as int)) is Some,
                record.is_of(all_recorded(a, views.take(i as int))->0),
            decreases bars.len() - i,
        {
            proof {
                lemma_recorded_prefix(a, views, i + 1);
                assert(views.take(i + 1).drop_last() =~= views.take(i as int));
                assert(views.take(i + 1).last() == views[i as int]);
            }
            record = match record.with(&bars[i], Ghost(all_recorded(a, views.take(i as int))->0)) {
                Some(next) => next,
                None => {
                    return None;
                },
            };
            i += 1;
        }
        assert(views.take(i as int) =~= views);
        Some(record)
    }
}

/// Aggregates ticks into OHLCV bars.
pub struct OhlcvAggregator {
    symbol: String,
    timeframe: Timeframe,
    current_bar: Option<OhlcvBar>,
    /// The most recently completed bar emitted by `feed` or `flush`.
    last_bar: Option<OhlcvBar>,
    /// When true, `feed` returns synthetic zero-volume bars for any bar windows
    /// that were skipped between the previous tick and the current one.
    /// The synthetic bars use the last known close price for all OHLC fields.
    emit_empty_bars: bool,
    /// Running sum of `price × quantity` for VWAP computation in the current bar.
    price_volume_sum: Decimal,
    /// The completed bars together.
    record: Record,
}

impl View for OhlcvAggregator {
    type V = AggregatorView;

    closed spec fn view(&self) -> AggregatorView {
        AggregatorView {
            symbol: self.symbol@,
            timeframe: self.timeframe,
            current_bar: match self.current_bar {
                Some(b) => Some(b@),
                None => None,
            },
            last_bar: match self.last_bar {
                Some(b) => Some(b@),
                None => None,
            },
            emit_empty_bars: self.emit_empty_bars,
            bars_emitted: self.record.bars_emitted,
            price_volume_sum: self.price_volume_sum.num(),
            total_volume: self.record.total_volume.num(),
            peak_volume: num_view(self.record.peak_volume),
            min_volume: num_view(self.record.min_volume),
        }
    }
}

/// The state of a new aggregator.
pub open spec fn fresh(
    symbol: Seq<char>,
    timeframe: Timeframe,
    emit_empty_bars: bool,
) -> AggregatorView {
    AggregatorView {
        symbol,
        timeframe,
        current_bar: None,
        last_bar: None,
        emit_empty_bars,
        bars_emitted: 0,
        price_volume_sum: nought(),
        total_volume: nought(),
        peak_volume: None,
        min_volume: None,
    }
}

impl OhlcvAggregator {
    /// What holds of every aggregator.
    pub open spec fn wf(&self) -> bool {
        view_wf(self@)
    }

    /// Create a new aggregator for `symbol` at `timeframe`.
    ///
    /// Returns an error if `timeframe.duration_ms()` is zero, which would make
    /// bar boundary alignment undefined.
    pub fn new(symbol: &str, timeframe: Timeframe) -> (r: Result<OhlcvAggregator, StreamError>)
        requires
            timeframe.millis() <= u64::MAX,
        ensures
            match r {
                Ok(a) => timeframe.millis() > 0 && a.wf() && a@ == fresh(symbol@, timeframe, false),
                Err(StreamError::ConfigError { reason }) => timeframe.millis() == 0 && reason@
                    == "OhlcvAggregator timeframe duration must be > 0"@,
                Err(_) => false,
            },
    {
        if timeframe.duration_ms() == 0 {
            return Err(
                StreamError::ConfigError {
                    reason: String::from_str("OhlcvAggregator timeframe duration must be > 0"),
                },
            );
        }
        Ok(
            OhlcvAggregator {
                symbol: symbol.to_owned(),
                timeframe,
                current_bar: None,
                last_bar: None,
                emit_empty_bars: false,
                price_volume_sum: Decimal::zero(),
                record: Record::new(),
            },
        )
    }

    /// Enable emission of synthetic zero-volume bars for skipped bar windows.
    pub fn with_emit_empty_bars(self, enabled: bool) -> (r: OhlcvAggregator)
        ensures
            r@ == (AggregatorView { emit_empty_bars: enabled, ..self@ }),
            self.wf() ==> r.wf(),
    {
        OhlcvAggregator { emit_empty_bars: enabled, ..self }
    }

    /// Feed a tick. Returns completed bars (including any empty gap bars when
    /// `emit_empty_bars` is true). At most one real completed bar plus zero or
    /// more empty bars can be returned per call.
    ///
    /// Bar boundaries are aligned using the exchange-side timestamp
    /// (`exchange_ts_ms`) when available, falling back to the local system
    /// clock (`received_at_ms`). Using the exchange timestamp avoids
    /// misalignment caused by variable network latency.
    ///
    /// # Errors
    ///
    /// Returns [`StreamError::AggregationError`] if the tick is of another
    /// symbol, or if it takes a price, a volume or a count out of range; the
    /// aggregator is then left as it was.
    #[must_use]
    pub fn feed(&mut self, tick: &NormalizedTick) -> (r: Result<Vec<OhlcvBar>, StreamError>)
        requires
            old(self).wf(),
        ensures
            final(self).wf(),
            match r {
                Ok(bars) => {
                    &&& tick@.symbol == old(self)@.symbol
                    &&& Some(final(self)@) == fed(old(self)@, tick@)
                    &&& bar_views(bars@) == closed_bars(old(self)@, tick@)
                },
                Err(StreamError::AggregationError { reason }) => {
                    &&& final(self)@ == old(self)@
                    &&& if tick@.symbol != old(self)@.symbol {
                        reason@ == symbol_reason(tick@.symbol, old(self)@.symbol)
                    } else {
                        fed(old(self)@, tick@) is None && reason@ == range_reason()
                    }
                },
                Err(_) => false,
            },
    {
        if tick.symbol != self.symbol {
            let mut reason = String::from_str("tick symbol '");
            reason.append(tick.symbol.as_str());
            reason.append("' does not match aggregator '");
            reason.append(self.symbol.as_str());
            reason.append("'");
            return Err(StreamError::AggregationError { reason });
        }
        let ghost a = self@;
        let ghost t = tick@;
        // Prefer the authoritative exchange timestamp; fall back to local clock.
        let bar_start: u64 = self.timeframe.bar_start_ms(tick.timestamp_ms());
        let emitted = self.closed_by(bar_start);
        assert(bar_views(emitted@) == closed_bars(a, t));
        let (bar, sum) = match self.with_tick(tick, bar_start) {
            Some(ticked) => ticked,
            None => {
                return Err(Self::out_of_range());
            },
        };
        let ghost s = AggregatorView {
            current_bar: Some(bar@),
            price_volume_sum: sum.num(),
            ..a
        };
        let record = match self.record.with_all(&emitted, Ghost(s)) {
            Some(record) => record,
            None => {
                return Err(Self::out_of_range());
            },
        };
        proof {
            lemma_window(a, t);
            completed_bars_belong(a, t);
            lemma_record_keeps_wf(s, closed_bars(a, t));
            recording_counts_the_bars(s, closed_bars(a, t));
        }
        self.current_bar = Some(bar);
        self.price_volume_sum = sum;
        self.record = record;
        if emitted.len() > 0 {
            assert(bar_views(emitted@).last() == emitted@.last()@);
            self.last_bar = Some(emitted[emitted.len() - 1].clone());
        }
        Ok(emitted)
    }

    /// The error for a tick that takes a number out of range.
    fn out_of_range() -> (r: StreamError)
        ensures
            r matches StreamError::AggregationError { reason } && reason@ == range_reason(),
    {
        StreamError::AggregationError {
            reason: String::from_str("tick takes a price, a volume or a count out of range"),
        }
    }

    /// The bars that a tick of the window that starts at `bar_start` completes: the
    /// bar in progress where it belongs to another window, and what fills the
    /// windows between them.
    fn closed_by(&self, bar_start: u64) -> (r: Vec<OhlcvBar>)
        requires
            self.wf(),
        ensures
            ({
                let a = self@;
                if a.current_bar is Some && a.current_bar->0.bar_start_ms != bar_start {
                    let b = a.current_bar->0;
                    bar_views(r@) == (if a.emit_empty_bars {
                        seq![completed(b)] + gap_bars(
                            a.symbol,
                            a.timeframe,
                            b.bar_start_ms + a.timeframe.millis(),
                            bar_start as int,
                            b.close,
                        )
                    } else {
                        seq![completed(b)]
                    })
                } else {
                    bar_views(r@) == Seq::<BarView>::empty()
                }
            }),
    {
        let mut emitted: Vec<OhlcvBar> = Vec::new();
        assert(bar_views(emitted@) =~= Seq::<BarView>::empty());
        if let Some(bar) = &self.current_bar {
            if bar.bar_start_ms != bar_start {
                let mut done = bar.clone();
                done.is_complete = true;
                let ghost b = done@;
                emitted.push(done);
                assert(bar_views(emitted@) =~= seq![b]);
                if self.emit_empty_bars {
                    self.fill_gap(&mut emitted, bar.bar_start_ms, bar_start, bar.close);
                }
            }
        }
        emitted
    }

    /// Appends the bars for the windows between the one that starts at `start`
    /// and the one that starts at `until`.
    fn fill_gap(&self, emitted: &mut Vec<OhlcvBar>, start: u64, until: u64, price: Decimal)
        requires
            self.wf(),
        ensures
            bar_views(final(emitted)@) == bar_views(old(emitted)@) + gap_bars(
                self@.symbol,
                self@.timeframe,
                start + self@.timeframe.millis(),
                until as int,
                price.num(),
            ),
    {
        let dur: u64 = self.timeframe.duration_ms();
        let ghost tf = self.timeframe;
        let ghost all = bar_views(emitted@) + gap_bars(
            self.symbol@,
            tf,
            start + dur,
            until as int,
            price.num(),
        );
        let mut at: u64 = start;
        while at < until && until - at > dur
            invariant
                dur == tf.millis(),
                dur > 0,
                tf == self.timeframe,
                all == bar_views(emitted@) + gap_bars(
                    self.symbol@,
                    tf,
                    at + dur,
                    until as int,
                    price.num(),
                ),
            decreases until - at,
        {
            let ghost before = bar_views(emitted@);
            at += dur;
            let gap = OhlcvBar {
                symbol: self.symbol.clone(),
                timeframe: self.timeframe,
                bar_start_ms: at,
                open: price,
                high: price,
                low: price,
                close: price,
                volume: Decimal::zero(),
                trade_count: 0,
                is_complete: true,
                is_gap_fill: true,
                vwap: None,
            };
            let ghost g = gap@;
            emitted.push(gap);
            assert(bar_views(emitted@) =~= before.push(g));
            assert(before + gap_bars(self.symbol@, tf, at as int, until as int, price.num()) =~= before.push(
                g,
            ) + gap_bars(self.symbol@, tf, at + dur, until as int, price.num()));
        }
        assert(all =~= bar_views(emitted@));
    }

    /// The bar in progress with a tick, or the bar that the tick opens, and the sum
    /// of `price × quantity` in it; `None` where a number is out of range.
    fn with_tick(&self, tick: &NormalizedTick, bar_start: u64) -> (r: Option<(OhlcvBar, Decimal)>)
        requires
            self.wf(),
            bar_start == window_of(self@, tick@),
        ensures
            ({
                let value = times(Some(tick@.price), Some(tick@.quantity));
                let sum = plus(Some(self@.price_volume_sum), value);
                if self@.current_bar is Some && !closes_bar(self@, tick@) {
                    let next = extended(self@.current_bar->0, tick@, sum);
                    match r {
                        Some((bar, total)) => Some(bar@) == next && total.val() == sum,
                        None => next is None || sum is None,
                    }
                } else {
                    match r {
                        Some((bar, total)) => bar@ == opened(self@, tick@) && total.val() == value,
                        None => value is None,
                    }
                }
            }),
    {
        let value = match tick.price.checked_mul(tick.quantity) {
            Some(value) => value,
            None => {
                return None;
            },
        };
        if let Some(bar) = &self.current_bar {
            if bar.bar_start_ms == bar_start {
                return Self::extended_by(bar, tick, self.price_volume_sum.checked_add(value));
            }
        }
        let bar = OhlcvBar {
            symbol: self.symbol.clone(),
            timeframe: self.timeframe,
            bar_start_ms: bar_start,
            open: tick.price,
            high: tick.price,
            low: tick.price,
            close: tick.price,
            volume: tick.quantity,
            trade_count: 1,
            is_complete: false,
            is_gap_fill: false,
            vwap: Some(tick.price),  // single-tick VWAP = price
        };
        Some((bar, value))
    }

    /// A bar with one more tick, where `sum` is the sum of `price × quantity` with
    /// the tick; `None` where a number is out of range.
    fn extended_by(bar: &OhlcvBar, tick: &NormalizedTick, sum: Option<Decimal>) -> (r: Option<
        (OhlcvBar, Decimal),
    >)
        ensures
            match r {
                Some((next, total)) => {
                    &&& sum == Some(total)
                    &&& Some(next@) == extended(bar@, tick@, total.val())
                },
                None => sum is None || extended(bar@, tick@, sum->0.val()) is None,
            },
    {
        let sum = sum?;
        let volume = bar.volume.checked_add(tick.quantity)?;
        if bar.trade_count == u64::MAX {
            return None;
        }
        let vwap = if volume.is_zero() {
            None
        } else {
            Some(sum.checked_div(volume)?)
        };
        let mut next = bar.clone();
        if tick.price > bar.high {
            next.high = tick.price;
        }
        if tick.price < bar.low {
            next.low = tick.price;
        }
        next.close = tick.price;
        next.volume = volume;
        next.trade_count = bar.trade_count + 1;
        next.vwap = vwap;
        Some((next, sum))
    }

    /// Current partial bar (if any).
    pub fn current_bar(&self) -> (r: Option<&OhlcvBar>)
        ensures
            match r {
                Some(b) => self@.current_bar == Some(b@),
                None => self@.current_bar is None,
            },
    {
        match &self.current_bar {
            Some(b) => Some(b),
            None => None,
        }
    }

    /// Flush the current partial bar as complete.
    ///
    /// Returns `None`, and leaves the aggregator as it was, if there is no such bar or
    /// if it takes the total volume or the number of bars out of range.
    #[must_use]
    pub fn flush(&mut self) -> (r: Option<OhlcvBar>)
        requires
            old(self).wf(),
        ensures
            final(self).wf(),
            match r {
                Some(b) => {
                    &&& old(self)@.current_bar is Some
                    &&& b@ == completed(old(self)@.current_bar->0)
                    &&& b@ == (BarView { is_complete: true, ..old(self)@.current_bar->0 })
                    &&& Some(final(self)@) == flushed(old(self)@)
                },
                None => {
                    &&& old(self)@.current_bar is None || flushed(old(self)@) is None
                    &&& final(self)@ == old(self)@
                },
            },
    {
        let mut done = match &self.current_bar {
            Some(bar) => bar.clone(),
            None => {
                return None;
            },
        };
        done.is_complete = true;
        self.record =
        match self.record.with(&done, Ghost(AggregatorView { current_bar: None, ..self@ })) {
            Some(record) => record,
            None => {
                return None;
            },
        };
        self.current_bar = None;
        self.last_bar = Some(done.clone());
        Some(done)
    }

    /// The most recently completed bar emitted by [`feed`](Self::feed) or
    /// [`flush`](Self::flush). Returns `None` if no bar has been completed yet.
    ///
    /// Unlike [`current_bar`](Self::current_bar), this bar is always complete.
    pub fn last_bar(&self) -> (r: Option<&OhlcvBar>)
        requires
            self.wf(),
        ensures
            match r {
                Some(b) => self@.last_bar == Some(b@) && b.is_complete,
                None => self@.last_bar is None,
            },
    {
        match &self.last_bar {
            Some(b) => Some(b),
            None => None,
        }
    }

    /// Total number of completed bars emitted by this aggregator (via `feed` or `flush`).
    pub fn bar_count(&self) -> (r: u64)
        ensures
            r == self@.bars_emitted,
    {
        self.record.bars_emitted
    }

    /// Discard the in-progress bar and reset the bar counter to zero.
    ///
    /// Useful for backtesting rewind or when restarting aggregation from a
    /// new anchor point. Does not affect the aggregator's symbol or timeframe.
    pub fn reset(&mut self)
        ensures
            final(self)@ == fresh(
                old(self)@.symbol,
                old(self)@.timeframe,
                old(self)@.emit_empty_bars,
            ),
            old(self).wf() ==> final(self).wf(),
    {
        self.current_bar = None;
        self.last_bar = None;
        self.price_volume_sum = Decimal::zero();
        self.record = Record::new();
    }

    /// Cumulative traded volume across all completed bars emitted by this aggregator.
    ///
    /// Does not include the current partial bar's volume. Reset to zero by
    /// [`reset`](Self::reset).
    pub fn total_volume(&self) -> (r: Decimal)
        ensures
            r.num() == self@.total_volume,
    {
        self.record.total_volume
    }

    /// Maximum single-bar volume seen across all completed bars.
    ///
    /// Returns `None` if no bars have been completed yet. Reset to `None` by
    /// [`reset`](Self::reset).
    pub fn peak_volume(&self) -> (r: Option<Decimal>)
        ensures
            yields(r, self@.peak_volume is Some, self@.peak_volume),
    {
        self.record.peak_volume
    }

    /// Minimum single-bar volume seen across all completed bars.
    ///
    /// Returns `None` if no bars have been completed yet. Reset to `None` by
    /// [`reset`](Self::reset).
    pub fn min_volume(&self) -> (r: Option<Decimal>)
        ensures
            yields(r, self@.min_volume is Some, self@.min_volume),
    {
        self.record.min_volume
    }

    /// Volume range across completed bars: `(min_volume, peak_volume)`.
    ///
    /// Returns `None` if no bars have been completed yet. Useful for
    /// normalizing volume signals to the observed range.
    pub fn volume_range(&self) -> (r: Option<(Decimal, Decimal)>)
        ensures
            match r {
                Some((min, peak)) => self@.min_volume == min.val() && self@.peak_volume
                    == peak.val(),
                None => self@.min_volume is None || self@.peak_volume is None,
            },
    {
        Some((self.record.min_volume?, self.record.peak_volume?))
    }

    /// Average volume per completed bar: `total_volume / bars_emitted`.
    ///
    /// Returns `None` if no bars have been completed yet (avoids division by zero).
    pub fn average_volume(&self) -> (r: Option<Decimal>)
        ensures
            yields(
                r,
                self@.bars_emitted != 0,
                over(Some(self@.total_volume), whole(self@.bars_emitted as int)),
            ),
    {
        if self.record.bars_emitted == 0 {
            return None;
        }
        Some(self.record.total_volume.per(self.record.bars_emitted))
    }

    /// The symbol this aggregator tracks.
    pub fn symbol(&self) -> (r: &str)
        ensures
            r@ == self@.symbol,
    {
        self.symbol.as_str()
    }

    /// The timeframe used for bar alignment.
    pub fn timeframe(&self) -> (r: Timeframe)
        ensures
            r == self@.timeframe,
    {
        self.timeframe
    }

    /// Fraction of the current bar's time window that has elapsed, in `[0, 1]`.
    ///
    /// Returns `None` if no bar is in progress (no ticks seen since last
    /// flush/reset). `now_ms` should be ≥ the current bar's `bar_start_ms`;
    /// values before the start clamp to `0`.
    pub fn window_progress(&self, now_ms: u64) -> (r: Option<Fraction>)
        requires
            self.wf(),
        ensures
            ({
                let start = self@.current_bar->0.bar_start_ms;
                let elapsed = if now_ms <= start {
                    0
                } else if now_ms - start >= self@.timeframe.millis() {
                    self@.timeframe.millis()
                } else {
                    now_ms - start
                };
                fraction_of(r, self@.current_bar is Some, elapsed, self@.timeframe.millis())
            }),
    {
        match &self.current_bar {
            None => None,
            Some(bar) => {
                let elapsed: u64 = if now_ms <= bar.bar_start_ms {
                    0
                } else {
                    now_ms - bar.bar_start_ms
                };
                let duration: u64 = self.timeframe.duration_ms();
                let elapsed: u64 = if elapsed >= duration {
                    duration
                } else {
                    elapsed
                };
                Some(Fraction { num: elapsed as i128, den: duration as u128 })
            },
        }
    }

    /// Returns `true` if a bar is currently in progress (at least one tick has
    /// been fed since the last flush or reset).
    pub fn is_active(&self) -> (r: bool)
        ensures
            r == self@.current_bar is Some,
    {
        match &self.current_bar {
            Some(_) => true,
            None => false,
        }
    }

    /// Volume-weighted average price of the current in-progress bar.
    ///
    /// Returns `None` if no bar is currently being built, if the bar has zero
    /// volume (should not happen with real ticks), or if the average is out of range.
    pub fn vwap_current(&self) -> (r: Option<Decimal>)
        ensures
            ({
                let vwap = over(Some(self@.price_volume_sum), Some(self@.current_bar->0.volume));
                yields(r, self@.current_bar is Some && vwap is Some, vwap)
            }),
    {
        match &self.current_bar {
            None => None,
            Some(bar) => {
                self.price_volume_sum.checked_div(bar.volume)
            },
        }
    }
}

/// The window of a tick starts at a timestamp, and is aligned.
proof fn lemma_window(a: AggregatorView, t: TickView)
    requires
        view_wf(a),
    ensures
        0 <= window_of(a, t) <= t.ts_ms,
        aligned(window_of(a, t), a.timeframe.millis()) == window_of(a, t),
{
    crate::timeframe::lemma_aligned(t.ts_ms as int, a.timeframe.millis());
    let d = a.timeframe.millis();
    let q = t.ts_ms as int / d;
    vstd::arithmetic::div_mod::lemma_div_multiples_vanish(q, d);
    assert(d * q == q * d) by (nonlinear_arith);
}

/// Bars that could be recorded one after the other could be so up to any of
/// them.
proof fn lemma_recorded_prefix(a: AggregatorView, bars: Seq<BarView>, n: int)
    requires
        0 <= n <= bars.len(),
    ensures
        all_recorded(a, bars) is Some ==> all_recorded(a, bars.take(n)) is Some,
    decreases bars.len(),
{
    if n == bars.len() {
        assert(bars.take(n) =~= bars);
    } else {
        lemma_recorded_prefix(a, bars.drop_last(), n);
        assert(bars.drop_last().take(n) =~= bars.take(n));
    }
}

/// Recording bars of the aggregator keeps what holds of every state.
proof fn lemma_record_keeps_wf(a: AggregatorView, bars: Seq<BarView>)
    requires
        view_wf(a),
        all_recorded(a, bars) is Some,
        forall|k: int|
            0 <= k < bars.len() ==> belongs(a, #[trigger] bars[k]) && bars[k].is_complete,
    ensures
        view_wf(all_recorded(a, bars)->0),
    decreases bars.len(),
{
    if bars.len() > 0 {
        let before = bars.drop_last();
        assert forall|k: int| 0 <= k < before.len() implies belongs(a, #[trigger] before[k])
            && before[k].is_complete by {
            assert(before[k] == bars[k]);
        }
        lemma_record_keeps_wf(a, before);
        recording_counts_the_bars(a, before);
        assert(belongs(a, bars[bars.len() - 1]));
    }
}

/// A tick keeps what holds of every state.
pub(crate) proof fn lemma_fed_wf(a: AggregatorView, t: TickView)
    requires
        view_wf(a),
        fed(a, t) is Some,
    ensures
        view_wf(fed(a, t)->0),
        fed(a, t)->0.symbol == a.symbol,
        fed(a, t)->0.timeframe == a.timeframe,
{
    let value = times(Some(t.price), Some(t.quantity));
    let sum = plus(Some(a.price_volume_sum), value);
    let s = if a.current_bar is Some && !closes_bar(a, t) {
        AggregatorView {
            current_bar: Some(extended(a.current_bar->0, t, sum)->0),
            price_volume_sum: sum->0,
            ..a
        }
    } else {
        AggregatorView { current_bar: Some(opened(a, t)), price_volume_sum: value->0, ..a }
    };
    lemma_window(a, t);
    completed_bars_belong(a, t);
    lemma_record_keeps_wf(s, closed_bars(a, t));
    recording_counts_the_bars(s, closed_bars(a, t));
}

/// Every bar that a tick completes is of the symbol and the timeframe of the
/// aggregator, aligned and complete, and its high is the highest and its low the
/// lowest of its prices.
pub proof fn completed_bars_belong(a: AggregatorView, t: TickView)
    requires
        view_wf(a),
    ensures
        forall|k: int|
            0 <= k < closed_bars(a, t).len() ==> belongs(a, #[trigger] closed_bars(a, t)[k])
                && closed_bars(a, t)[k].is_complete,
{
    if closes_bar(a, t) && a.emit_empty_bars {
        let b = a.current_bar->0;
        let d = a.timeframe.millis();
        let next = b.bar_start_ms + d;
        assert(aligned(next, d) == next) by {
            vstd::arithmetic::div_mod::lemma_div_plus_one(b.bar_start_ms as int, d);
            let q = b.bar_start_ms as int / d;
            assert((q + 1) * d == q * d + d) by (nonlinear_arith);
        }
        lemma_window(a, t);
        lemma_gap_bars(a, next, window_of(a, t), b.close);
    }
}

proof fn lemma_gap_bars(
    a: AggregatorView,
    start: int,
    until: int,
    price: Num,
)
    requires
        0 < a.timeframe.millis() <= u64::MAX,
        0 <= start,
        until <= u64::MAX,
        aligned(start, a.timeframe.millis()) == start,
    ensures
        forall|k: int|
            0 <= k < gap_bars(a.symbol, a.timeframe, start, until, price).len() ==> belongs(
                a,
                #[trigger] gap_bars(a.symbol, a.timeframe, start, until, price)[k],
            ) && gap_bars(a.symbol, a.timeframe, start, until, price)[k].is_complete,
    decreases
        (if start < until {
            until - start
        } else {
            0
        }),
{
    let d = a.timeframe.millis();
    if start < until {
        let next = start + d;
        assert(aligned(next, d) == next) by {
            vstd::arithmetic::div_mod::lemma_div_plus_one(start, d);
            let q = start / d;
            assert((q + 1) * d == q * d + d) by (nonlinear_arith);
        }
        lemma_gap_bars(a, next, until, price);
        let rest = gap_bars(a.symbol, a.timeframe, next, until, price);
        let all = gap_bars(a.symbol, a.timeframe, start, until, price);
        assert forall|k: int| 0 <= k < all.len() implies belongs(a, #[trigger] all[k])
            && all[k].is_complete by {
            if k > 0 {
                assert(belongs(a, rest[k - 1]));
            }
        }
    }
}

} // verus!
