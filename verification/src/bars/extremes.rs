//! The highest, the lowest and the middle over bars.

use crate::bar::OhlcvBar;
use crate::bars::{
    bodies, channel, close_span, closes, down_moves, gap_sizes, highs, is_highest_volume,
    is_lowest_volume, lows, opens, price_changes, ranges, up_moves, volumes,
};
use crate::decimal::{larger, magnitude, minus, whole, yields, Decimal};
use crate::series::{self, all_some, highest, last_highest, lowest, median, windows};
use vstd::prelude::*;

verus! {

impl OhlcvBar {
    /// Maximum `high` across a slice of bars.
    ///
    /// Returns `None` if the slice is empty. Useful for computing resistance
    /// levels, swing highs, and ATH/period-high comparisons.
    pub fn highest_high(bars: &[OhlcvBar]) -> (r: Option<Decimal>)
        ensures
            yields(r, bars@.len() > 0, highest(bars@.len() as int, highs(bars@))),
    {
        series::greatest(
            bars,
            |b: &OhlcvBar| -> (d: Decimal)
                ensures
                    d.val() == b.high.val()
            { b.high },
            Ghost(highs(bars@)),
        )
    }

    /// Minimum `low` across a slice of bars.
    ///
    /// Returns `None` if the slice is empty. Useful for computing support
    /// levels, swing lows, and ATL/period-low comparisons.
    pub fn lowest_low(bars: &[OhlcvBar]) -> (r: Option<Decimal>)
        ensures
            yields(r, bars@.len() > 0, lowest(bars@.len() as int, lows(bars@))),
    {
        series::least(
            bars,
            |b: &OhlcvBar| -> (d: Decimal)
                ensures
                    d.val() == b.low.val()
            { b.low },
            Ghost(lows(bars@)),
        )
    }

    /// Maximum `close` across a slice of bars.
    ///
    /// Returns `None` if the slice is empty. Useful for identifying the
    /// highest closing price within a lookback window.
    pub fn highest_close(bars: &[OhlcvBar]) -> (r: Option<Decimal>)
        ensures
            yields(r, bars@.len() > 0, highest(bars@.len() as int, closes(bars@))),
    {
        series::greatest(
            bars,
            |b: &OhlcvBar| -> (d: Decimal)
                ensures
                    d.val() == b.close.val()
            { b.close },
            Ghost(closes(bars@)),
        )
    }

    /// Minimum `close` across a slice of bars.
    ///
    /// Returns `None` if the slice is empty. Useful for identifying the
    /// lowest closing price within a lookback window.
    pub fn lowest_close(bars: &[OhlcvBar]) -> (r: Option<Decimal>)
        ensures
            yields(r, bars@.len() > 0, lowest(bars@.len() as int, closes(bars@))),
    {
        series::least(
            bars,
            |b: &OhlcvBar| -> (d: Decimal)
                ensures
                    d.val() == b.close.val()
            { b.close },
            Ghost(closes(bars@)),
        )
    }

    /// Minimum bar body size (|close − open|) across the slice.
    ///
    /// Returns `None` if the slice is empty.
    pub fn min_body(bars: &[OhlcvBar]) -> (r: Option<Decimal>)
        requires
            all_some(bars@.len() as int, bodies(bars@)),
        ensures
            yields(r, bars@.len() > 0, lowest(bars@.len() as int, bodies(bars@))),
    {
        series::least(
            bars,
            |b: &OhlcvBar| -> (d: Decimal)
                requires
                    b.body_val() is Some,
                ensures
                    d.val() == b.body_val()
            { b.body() },
            Ghost(bodies(bars@)),
        )
    }

    /// Maximum bar body size (|close − open|) across the slice.
    ///
    /// Returns `None` if the slice is empty.
    pub fn max_body(bars: &[OhlcvBar]) -> (r: Option<Decimal>)
        requires
            all_some(bars@.len() as int, bodies(bars@)),
        ensures
            yields(r, bars@.len() > 0, highest(bars@.len() as int, bodies(bars@))),
    {
        series::greatest(
            bars,
            |b: &OhlcvBar| -> (d: Decimal)
                requires
                    b.body_val() is Some,
                ensures
                    d.val() == b.body_val()
            { b.body() },
            Ghost(bodies(bars@)),
        )
    }

    /// Maximum open price across the slice.
    ///
    /// Returns `None` if the slice is empty.
    pub fn highest_open(bars: &[OhlcvBar]) -> (r: Option<Decimal>)
        ensures
            yields(r, bars@.len() > 0, highest(bars@.len() as int, opens(bars@))),
    {
        series::greatest(
            bars,
            |b: &OhlcvBar| -> (d: Decimal)
                ensures
                    d.val() == b.open.val()
            { b.open },
            Ghost(opens(bars@)),
        )
    }

    /// Minimum open price across the slice.
    ///
    /// Returns `None` if the slice is empty.
    pub fn lowest_open(bars: &[OhlcvBar]) -> (r: Option<Decimal>)
        ensures
            yields(r, bars@.len() > 0, lowest(bars@.len() as int, opens(bars@))),
    {
        series::least(
            bars,
            |b: &OhlcvBar| -> (d: Decimal)
                ensures
                    d.val() == b.open.val()
            { b.open },
            Ghost(opens(bars@)),
        )
    }

    /// Maximum close price in the slice.
    ///
    /// Returns `None` for an empty slice.
    pub fn max_close(bars: &[OhlcvBar]) -> (r: Option<Decimal>)
        ensures
            yields(r, bars@.len() > 0, highest(bars@.len() as int, closes(bars@))),
    {
        Self::highest_close(bars)
    }

    /// Minimum close price in the slice.
    ///
    /// Returns `None` for an empty slice.
    pub fn min_close(bars: &[OhlcvBar]) -> (r: Option<Decimal>)
        ensures
            yields(r, bars@.len() > 0, lowest(bars@.len() as int, closes(bars@))),
    {
        Self::lowest_close(bars)
    }

    /// Maximum (highest) close price across all bars.
    ///
    /// Returns `None` if the slice is empty.
    pub fn peak_close(bars: &[OhlcvBar]) -> (r: Option<Decimal>)
        ensures
            yields(r, bars@.len() > 0, highest(bars@.len() as int, closes(bars@))),
    {
        Self::highest_close(bars)
    }

    /// Minimum (lowest) close price across all bars.
    ///
    /// Returns `None` if the slice is empty.
    pub fn trough_close(bars: &[OhlcvBar]) -> (r: Option<Decimal>)
        ensures
            yields(r, bars@.len() > 0, lowest(bars@.len() as int, closes(bars@))),
    {
        Self::lowest_close(bars)
    }

    /// Largest single-bar upward body (`max(close − open, 0)`).
    pub fn max_up_move(bars: &[OhlcvBar]) -> (r: Option<Decimal>)
        requires
            all_some(bars@.len() as int, up_moves(bars@)),
        ensures
            yields(r, bars@.len() > 0, last_highest(bars@.len() as int, up_moves(bars@))),
    {
        series::last_greatest(
            bars,
            |b: &OhlcvBar| -> (d: Decimal)
                requires
                    larger(minus(b.close.val(), b.open.val()), whole(0)) is Some,
                ensures
                    d.val() == larger(minus(b.close.val(), b.open.val()), whole(0))
            { (b.close - b.open).max(Decimal::zero()) },
            Ghost(up_moves(bars@)),
        )
    }

    /// Largest single-bar downward body (`max(open − close, 0)`).
    pub fn max_down_move(bars: &[OhlcvBar]) -> (r: Option<Decimal>)
        requires
            all_some(bars@.len() as int, down_moves(bars@)),
        ensures
            yields(r, bars@.len() > 0, last_highest(bars@.len() as int, down_moves(bars@))),
    {
        series::last_greatest(
            bars,
            |b: &OhlcvBar| -> (d: Decimal)
                requires
                    larger(minus(b.open.val(), b.close.val()), whole(0)) is Some,
                ensures
                    d.val() == larger(minus(b.open.val(), b.close.val()), whole(0))
            { (b.open - b.close).max(Decimal::zero()) },
            Ghost(down_moves(bars@)),
        )
    }

    /// Largest single-bar price gap (open vs. previous close) in the slice.
    ///
    /// Returns `None` for fewer than 2 bars.
    pub fn max_open_gap(bars: &[OhlcvBar]) -> (r: Option<Decimal>)
        requires
            all_some(windows(bars@.len(), 2), gap_sizes(bars@)),
        ensures
            yields(r, bars@.len() >= 2, last_highest(windows(bars@.len(), 2), gap_sizes(bars@))),
    {
        series::last_greatest_pairs(
            bars,
            |p: &OhlcvBar, b: &OhlcvBar| -> (d: Decimal)
                requires
                    magnitude(minus(b.open.val(), p.close.val())) is Some,
                ensures
                    d.val() == magnitude(minus(b.open.val(), p.close.val()))
            { (b.open - p.close).abs() },
            Ghost(gap_sizes(bars@)),
        )
    }

    /// Maximum high price across all bars.
    pub fn max_high(bars: &[OhlcvBar]) -> (r: Option<Decimal>)
        ensures
            yields(r, bars@.len() > 0, last_highest(bars@.len() as int, highs(bars@))),
    {
        series::last_greatest(
            bars,
            |b: &OhlcvBar| -> (d: Decimal)
                ensures
                    d.val() == b.high.val()
            { b.high },
            Ghost(highs(bars@)),
        )
    }

    /// Minimum low price across all bars.
    pub fn min_low(bars: &[OhlcvBar]) -> (r: Option<Decimal>)
        ensures
            yields(r, bars@.len() > 0, lowest(bars@.len() as int, lows(bars@))),
    {
        Self::lowest_low(bars)
    }

    /// Maximum bar body size `|close - open|` across all bars.
    pub fn max_body_size(bars: &[OhlcvBar]) -> (r: Option<Decimal>)
        requires
            all_some(bars@.len() as int, bodies(bars@)),
        ensures
            yields(r, bars@.len() > 0, last_highest(bars@.len() as int, bodies(bars@))),
    {
        series::last_greatest(
            bars,
            |b: &OhlcvBar| -> (d: Decimal)
                requires
                    b.body_val() is Some,
                ensures
                    d.val() == b.body_val()
            { b.body() },
            Ghost(bodies(bars@)),
        )
    }

    /// Minimum bar body size `|close - open|` across all bars.
    pub fn min_body_size(bars: &[OhlcvBar]) -> (r: Option<Decimal>)
        requires
            all_some(bars@.len() as int, bodies(bars@)),
        ensures
            yields(r, bars@.len() > 0, lowest(bars@.len() as int, bodies(bars@))),
    {
        Self::min_body(bars)
    }

    /// Maximum volume across bars.
    pub fn max_bar_volume(bars: &[OhlcvBar]) -> (r: Option<Decimal>)
        ensures
            yields(r, bars@.len() > 0, last_highest(bars@.len() as int, volumes(bars@))),
    {
        series::last_greatest(
            bars,
            |b: &OhlcvBar| -> (d: Decimal)
                ensures
                    d.val() == b.volume.val()
            { b.volume },
            Ghost(volumes(bars@)),
        )
    }

    /// Minimum volume across bars.
    pub fn min_bar_volume(bars: &[OhlcvBar]) -> (r: Option<Decimal>)
        ensures
            yields(r, bars@.len() > 0, lowest(bars@.len() as int, volumes(bars@))),
    {
        series::least(
            bars,
            |b: &OhlcvBar| -> (d: Decimal)
                ensures
                    d.val() == b.volume.val()
            { b.volume },
            Ghost(volumes(bars@)),
        )
    }

    /// Maximum `close - open` value across all bars.
    /// Returns `None` for an empty slice.
    pub fn max_close_minus_open(bars: &[OhlcvBar]) -> (r: Option<Decimal>)
        requires
            all_some(bars@.len() as int, price_changes(bars@)),
        ensures
            yields(r, bars@.len() > 0, last_highest(bars@.len() as int, price_changes(bars@))),
    {
        series::last_greatest(
            bars,
            |b: &OhlcvBar| -> (d: Decimal)
                requires
                    b.price_change_val() is Some,
                ensures
                    d.val() == b.price_change_val()
            { b.price_change() },
            Ghost(price_changes(bars@)),
        )
    }

    /// Close price range: `highest_close − lowest_close` across a slice.
    ///
    /// Returns `None` if the slice is empty.
    pub fn close_range(bars: &[OhlcvBar]) -> (r: Option<Decimal>)
        requires
            bars@.len() > 0 ==> close_span(bars@) is Some,
        ensures
            yields(r, bars@.len() > 0, close_span(bars@)),
    {
        let hi = Self::highest_close(bars)?;
        let lo = Self::lowest_close(bars)?;
        Some(hi - lo)
    }

    /// Full channel width: `highest_high − lowest_low` across the slice.
    ///
    /// Returns `None` if the slice is empty.
    pub fn channel_width(bars: &[OhlcvBar]) -> (r: Option<Decimal>)
        requires
            bars@.len() > 0 ==> channel(bars@) is Some,
        ensures
            yields(r, bars@.len() > 0, channel(bars@)),
    {
        let hi = Self::highest_high(bars)?;
        let lo = Self::lowest_low(bars)?;
        Some(hi - lo)
    }

    /// Width of the price channel: rolling max-high minus rolling min-low across the slice.
    /// Returns `None` for an empty slice.
    pub fn price_channel_width(bars: &[OhlcvBar]) -> (r: Option<Decimal>)
        requires
            bars@.len() > 0 ==> channel(bars@) is Some,
        ensures
            yields(r, bars@.len() > 0, channel(bars@)),
    {
        let hi = Self::highest_high(bars)?;
        let lo = Self::lowest_low(bars)?;
        Some(hi - lo)
    }

    /// Median bar range `(high − low)` across the slice.
    ///
    /// Robust to outlier bars with unusually wide or narrow ranges.
    /// Returns `None` for an empty slice.
    pub fn median_range(bars: &[OhlcvBar]) -> (r: Option<Decimal>)
        requires
            all_some(bars@.len() as int, ranges(bars@)),
            bars@.len() > 0 ==> median(bars@.len() as int, ranges(bars@)) is Some,
        ensures
            yields(r, bars@.len() > 0, median(bars@.len() as int, ranges(bars@))),
    {
        if bars.len() == 0 {
            return None;
        }
        Some(
            series::median_of(
                bars,
                |b: &OhlcvBar| -> (d: Decimal)
                    requires
                        b.range_val() is Some,
                    ensures
                        d.val() == b.range_val()
                { b.range() },
                Ghost(ranges(bars@)),
            ),
        )
    }

    /// Median close price across the slice.
    ///
    /// Returns `None` for empty slices.
    pub fn median_close(bars: &[OhlcvBar]) -> (r: Option<Decimal>)
        requires
            bars@.len() > 0 ==> median(bars@.len() as int, closes(bars@)) is Some,
        ensures
            yields(r, bars@.len() > 0, median(bars@.len() as int, closes(bars@))),
    {
        if bars.len() == 0 {
            return None;
        }
        Some(
            series::median_of(
                bars,
                |b: &OhlcvBar| -> (d: Decimal)
                    ensures
                        d.val() == b.close.val()
                { b.close },
                Ghost(closes(bars@)),
            ),
        )
    }

    /// Median volume across all bars.
    /// Returns `None` for an empty slice.
    pub fn median_volume(bars: &[OhlcvBar]) -> (r: Option<Decimal>)
        requires
            bars@.len() > 0 ==> median(bars@.len() as int, volumes(bars@)) is Some,
        ensures
            yields(r, bars@.len() > 0, median(bars@.len() as int, volumes(bars@))),
    {
        if bars.len() == 0 {
            return None;
        }
        Some(
            series::median_of(
                bars,
                |b: &OhlcvBar| -> (d: Decimal)
                    ensures
                        d.val() == b.volume.val()
                { b.volume },
                Ghost(volumes(bars@)),
            ),
        )
    }

    /// Maximum `trade_count` seen across the slice.
    ///
    /// Returns `None` if the slice is empty.
    pub fn max_trade_count(bars: &[OhlcvBar]) -> (r: Option<u64>)
        ensures
            match r {
                Some(n) => {
                    &&& exists|i: int| 0 <= i < bars@.len() && (#[trigger] bars@[i]).trade_count == n
                    &&& forall|i: int| 0 <= i < bars@.len() ==> n >= (#[trigger] bars@[i]).trade_count
                },
                None => bars@.len() == 0,
            },
    {
        if bars.len() == 0 {
            return None;
        }
        let mut n: u64 = bars[0].trade_count;
        let mut i: usize = 1;
        while i < bars.len()
            invariant
                1 <= i <= bars@.len(),
                exists|j: int| 0 <= j < i && (#[trigger] bars@[j]).trade_count == n,
                forall|j: int| 0 <= j < i ==> n >= (#[trigger] bars@[j]).trade_count,
            decreases bars@.len() - i,
        {
            if n < bars[i].trade_count {
                n = bars[i].trade_count;
                assert(bars@[i as int].trade_count == n);
            }
            i += 1;
        }
        Some(n)
    }

    /// Minimum `trade_count` seen across the slice.
    ///
    /// Returns `None` if the slice is empty.
    pub fn min_trade_count(bars: &[OhlcvBar]) -> (r: Option<u64>)
        ensures
            match r {
                Some(n) => {
                    &&& exists|i: int| 0 <= i < bars@.len() && (#[trigger] bars@[i]).trade_count == n
                    &&& forall|i: int| 0 <= i < bars@.len() ==> n <= (#[trigger] bars@[i]).trade_count
                },
                None => bars@.len() == 0,
            },
    {
        if bars.len() == 0 {
            return None;
        }
        let mut n: u64 = bars[0].trade_count;
        let mut i: usize = 1;
        while i < bars.len()
            invariant
                1 <= i <= bars@.len(),
                exists|j: int| 0 <= j < i && (#[trigger] bars@[j]).trade_count == n,
                forall|j: int| 0 <= j < i ==> n <= (#[trigger] bars@[j]).trade_count,
            decreases bars@.len() - i,
        {
            if n > bars[i].trade_count {
                n = bars[i].trade_count;
                assert(bars@[i as int].trade_count == n);
            }
            i += 1;
        }
        Some(n)
    }

    /// Bar with the highest volume in the slice.
    ///
    /// Returns `None` if the slice is empty.
    ///
    /// Of several such bars it is the latest.
    pub fn max_volume_bar(bars: &[OhlcvBar]) -> (r: Option<&OhlcvBar>)
        ensures
            match r {
                Some(b) => exists|i: int| #[trigger] is_highest_volume(bars@, i) && *b == bars@[i],
                None => bars@.len() == 0,
            },
    {
        if bars.len() == 0 {
            return None;
        }
        let mut at: usize = 0;
        let mut i: usize = 1;
        while i < bars.len()
            invariant
                at < i <= bars@.len(),
                forall|j: int|
                    0 <= j < i ==> (#[trigger] bars@[j]).volume@ <= bars@[at as int].volume@,
                forall|j: int|
                    at < j < i ==> (#[trigger] bars@[j]).volume@ < bars@[at as int].volume@,
            decreases bars@.len() - i,
        {
            if bars[i].volume >= bars[at].volume {
                at = i;
            }
            i += 1;
        }
        assert(is_highest_volume(bars@, at as int));
        Some(&bars[at])
    }

    /// Bar with the lowest volume in the slice.
    ///
    /// Returns `None` if the slice is empty.
    ///
    /// Of several such bars it is the earliest.
    pub fn min_volume_bar(bars: &[OhlcvBar]) -> (r: Option<&OhlcvBar>)
        ensures
            match r {
                Some(b) => exists|i: int| #[trigger] is_lowest_volume(bars@, i) && *b == bars@[i],
                None => bars@.len() == 0,
            },
    {
        if bars.len() == 0 {
            return None;
        }
        let mut at: usize = 0;
        let mut i: usize = 1;
        while i < bars.len()
            invariant
                at < i <= bars@.len(),
                forall|j: int|
                    0 <= j < i ==> (#[trigger] bars@[j]).volume@ >= bars@[at as int].volume@,
                forall|j: int|
                    0 <= j < at ==> (#[trigger] bars@[j]).volume@ > bars@[at as int].volume@,
            decreases bars@.len() - i,
        {
            if bars[i].volume < bars[at].volume {
                at = i;
            }
            i += 1;
        }
        assert(is_lowest_volume(bars@, at as int));
        Some(&bars[at])
    }
}

} // verus!
