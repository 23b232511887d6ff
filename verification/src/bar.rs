//! The OHLCV bar, and what can be read off one bar or off two.

use crate::decimal::{
    is_nought, larger, magnitude, minus, over, plus, smaller, times, whole, yields, Decimal, Num,
};
use crate::timeframe::Timeframe;
use vstd::prelude::*;
use vstd::string::*;

verus! {

/// Direction of an OHLCV bar body.
#[derive(Clone, Copy, Debug, PartialEq, Eq, Structural)]
pub enum BarDirection {
    /// Close is strictly above open.
    Bullish,
    /// Close is strictly below open.
    Bearish,
    /// Close equals open (flat body).
    Neutral,
}

/// A completed or partial OHLCV bar.
#[derive(Debug)]
pub struct OhlcvBar {
    /// Instrument symbol (e.g. `"BTC-USD"`).
    pub symbol: String,
    /// Timeframe of this bar.
    pub timeframe: Timeframe,
    /// UTC millisecond timestamp of the bar's open boundary.
    pub bar_start_ms: u64,
    /// Opening price (first tick's price in the bar window).
    pub open: Decimal,
    /// Highest price seen in the bar window.
    pub high: Decimal,
    /// Lowest price seen in the bar window.
    pub low: Decimal,
    /// Closing price (most recent tick's price in the bar window).
    pub close: Decimal,
    /// Total traded volume in this bar.
    pub volume: Decimal,
    /// Number of ticks contributing to this bar.
    pub trade_count: u64,
    /// `true` once the bar's time window has been closed by a tick in a later window.
    pub is_complete: bool,
    /// `true` if this bar was synthesized to fill a gap — no real ticks were received
    /// during its window. Gap-fill bars have `trade_count == 0` and all OHLC fields set
    /// to the last known close price. Callers may use this flag to filter synthetic bars
    /// out of indicator calculations or storage.
    pub is_gap_fill: bool,
    /// Volume-weighted average price for this bar. `None` for gap-fill bars.
    pub vwap: Option<Decimal>,
}

/// What a bar says, with prices and volume as numbers. The prices are also given
/// as they are written.
pub struct BarView {
    /// Instrument symbol.
    pub symbol: Seq<char>,
    /// Timeframe.
    pub timeframe: Timeframe,
    /// Start of the bar window.
    pub bar_start_ms: u64,
    /// Opening price.
    pub open: Num,
    /// Highest price.
    pub high: Num,
    /// Lowest price.
    pub low: Num,
    /// Closing price.
    pub close: Num,
    /// Volume.
    pub volume: Num,
    /// Number of ticks.
    pub trade_count: u64,
    /// Whether the window is closed.
    pub is_complete: bool,
    /// Whether the bar fills a gap.
    pub is_gap_fill: bool,
    /// Volume-weighted average price.
    pub vwap: Option<Num>,
}

/// A number that may be missing.
pub open spec fn option_view(d: Option<Decimal>) -> Option<Num> {
    match d {
        Some(d) => Some(d.num()),
        None => None,
    }
}

impl View for OhlcvBar {
    type V = BarView;

    open spec fn view(&self) -> BarView {
        BarView {
            symbol: self.symbol@,
            timeframe: self.timeframe,
            bar_start_ms: self.bar_start_ms,
            open: self.open.num(),
            high: self.high.num(),
            low: self.low.num(),
            close: self.close.num(),
            volume: self.volume.num(),
            trade_count: self.trade_count,
            is_complete: self.is_complete,
            is_gap_fill: self.is_gap_fill,
            vwap: option_view(self.vwap),
        }
    }
}

impl Clone for OhlcvBar {
    fn clone(&self) -> (r: OhlcvBar)
        ensures
            r == *self,
    {
        OhlcvBar {
            symbol: self.symbol.clone(),
            timeframe: self.timeframe,
            bar_start_ms: self.bar_start_ms,
            open: self.open,
            high: self.high,
            low: self.low,
            close: self.close,
            volume: self.volume,
            trade_count: self.trade_count,
            is_complete: self.is_complete,
            is_gap_fill: self.is_gap_fill,
            vwap: self.vwap,
        }
    }
}

/// The values of what the methods below compute, `None` where the arithmetic is
/// out of range.
impl OhlcvBar {
    /// `high - low`.
    pub open spec fn range_val(self) -> Option<Num> {
        minus(self.high.val(), self.low.val())
    }

    /// `close - open`.
    pub open spec fn price_change_val(self) -> Option<Num> {
        minus(self.close.val(), self.open.val())
    }

    /// `|close - open|`.
    pub open spec fn body_val(self) -> Option<Num> {
        magnitude(minus(self.close.val(), self.open.val()))
    }

    /// `max(open, close)`.
    pub open spec fn body_high_val(self) -> Option<Num> {
        larger(self.open.val(), self.close.val())
    }

    /// `min(open, close)`.
    pub open spec fn body_low_val(self) -> Option<Num> {
        smaller(self.open.val(), self.close.val())
    }

    /// `high - max(open, close)`.
    pub open spec fn wick_upper_val(self) -> Option<Num> {
        minus(self.high.val(), self.body_high_val())
    }

    /// `min(open, close) - low`.
    pub open spec fn wick_lower_val(self) -> Option<Num> {
        minus(self.body_low_val(), self.low.val())
    }

    /// `(high + low + close) / 3`.
    pub open spec fn typical_price_val(self) -> Option<Num> {
        over(plus(plus(self.high.val(), self.low.val()), self.close.val()), whole(3))
    }

    /// `(high + low) / 2`.
    pub open spec fn median_price_val(self) -> Option<Num> {
        over(plus(self.high.val(), self.low.val()), whole(2))
    }

    /// The greatest of `high - low`, `|high - prev_close|` and
    /// `|low - prev_close|`.
    pub open spec fn true_range_val(self, prev_close: Num) -> Option<Num> {
        larger(
            larger(self.range_val(), magnitude(minus(self.high.val(), Some(prev_close)))),
            magnitude(minus(self.low.val(), Some(prev_close))),
        )
    }

    /// `((close - low) - (high - close)) / (high - low)`.
    pub open spec fn close_location_val(self) -> Option<Num> {
        over(
            minus(
                minus(self.close.val(), self.low.val()),
                minus(self.high.val(), self.close.val()),
            ),
            self.range_val(),
        )
    }

    /// Whether the range lies strictly within that of another bar.
    pub open spec fn inside(self, other: OhlcvBar) -> bool {
        self.high@ < other.high@ && self.low@ > other.low@
    }

    /// Whether the body reaches beyond that of another bar on both sides.
    pub open spec fn engulfs(self, other: OhlcvBar) -> bool {
        &&& self.body_low_val()->0.units < other.body_low_val()->0.units
        &&& self.body_high_val()->0.units > other.body_high_val()->0.units
    }

    /// `low + (high - low) * pct`, with `pct` within `[0, 1]`.
    pub open spec fn price_at_val(self, pct: Num) -> Option<Num> {
        plus(
            self.low.val(),
            times(self.range_val(), smaller(larger(Some(pct), whole(0)), whole(1))),
        )
    }

    /// Whether the high is the highest and the low the lowest of the prices.
    pub open spec fn is_valid(self) -> bool {
        &&& self.low@ <= self.open@ <= self.high@
        &&& self.low@ <= self.close@ <= self.high@
    }

    /// The bar on one line.
    pub open spec fn text(self) -> Seq<char> {
        self.symbol@ + " "@ + self.timeframe.text() + " ["@ + self.open.text() + "/"@
            + self.high.text() + "/"@ + self.low.text() + "/"@ + self.close.text() + "  v="@
            + self.volume.text() + "]"@
    }
}

impl OhlcvBar {
    /// Price range of the bar: `high - low`.
    pub fn range(&self) -> (r: Decimal)
        requires
            self.range_val() is Some,
        ensures
            r.val() == self.range_val(),
    {
        self.high - self.low
    }

    /// Candle body size: `(close - open).abs()`.
    ///
    /// Direction-independent; use `close > open` to determine bullish/bearish.
    pub fn body(&self) -> (r: Decimal)
        requires
            self.body_val() is Some,
        ensures
            r.val() == self.body_val(),
    {
        (self.close - self.open).abs()
    }

    /// Higher of open and close: `max(open, close)`.
    ///
    /// The top of the candle body, regardless of direction.
    pub fn body_high(&self) -> (r: Decimal)
        ensures
            r.val() == self.body_high_val(),
    {
        self.open.max(self.close)
    }

    /// Lower of open and close: `min(open, close)`.
    ///
    /// The bottom of the candle body, regardless of direction.
    pub fn body_low(&self) -> (r: Decimal)
        ensures
            r.val() == self.body_low_val(),
    {
        self.open.min(self.close)
    }

    /// Returns `true` if this is a bullish bar (`close > open`).
    pub fn is_bullish(&self) -> (r: bool)
        ensures
            r == (self.close@ > self.open@),
    {
        self.close > self.open
    }

    /// Returns `true` if this is a bearish bar (`close < open`).
    pub fn is_bearish(&self) -> (r: bool)
        ensures
            r == (self.close@ < self.open@),
    {
        self.close < self.open
    }

    /// Returns `true` if the bar has a non-zero upper wick (`high > max(open, close)`).
    pub fn has_upper_wick(&self) -> (r: bool)
        requires
            self.wick_upper_val() is Some,
        ensures
            r == (self.wick_upper_val()->0.units > 0),
    {
        self.wick_upper() > Decimal::zero()
    }

    /// Returns `true` if the bar has a non-zero lower wick (`min(open, close) > low`).
    pub fn has_lower_wick(&self) -> (r: bool)
        requires
            self.wick_lower_val() is Some,
        ensures
            r == (self.wick_lower_val()->0.units > 0),
    {
        self.wick_lower() > Decimal::zero()
    }

    /// Directional classification of the bar body.
    ///
    /// Returns [`BarDirection::Bullish`] when `close > open`, [`BarDirection::Bearish`]
    /// when `close < open`, and [`BarDirection::Neutral`] when they are equal.
    pub fn body_direction(&self) -> (r: BarDirection)
        ensures
            r == (if self.close@ > self.open@ {
                BarDirection::Bullish
            } else if self.close@ < self.open@ {
                BarDirection::Bearish
            } else {
                BarDirection::Neutral
            }),
    {
        if self.close > self.open {
            BarDirection::Bullish
        } else if self.close < self.open {
            BarDirection::Bearish
        } else {
            BarDirection::Neutral
        }
    }

    /// Returns `true` if the bar body is a doji (indecision candle).
    ///
    /// A doji has `|close - open| <= epsilon`. Use a small positive `epsilon`
    /// such as `0.01` to account for rounding in price data.
    pub fn is_doji(&self, epsilon: Decimal) -> (r: bool)
        requires
            self.body_val() is Some,
        ensures
            r == (self.body_val()->0.units <= epsilon@),
    {
        self.body() <= epsilon
    }

    /// Upper wick (shadow) length: `high - max(open, close)`.
    ///
    /// The upper wick is the portion of the candle above the body.
    pub fn wick_upper(&self) -> (r: Decimal)
        requires
            self.wick_upper_val() is Some,
        ensures
            r.val() == self.wick_upper_val(),
    {
        self.high - self.body_high()
    }

    /// Lower wick (shadow) length: `min(open, close) - low`.
    ///
    /// The lower wick is the portion of the candle below the body.
    pub fn wick_lower(&self) -> (r: Decimal)
        requires
            self.wick_lower_val() is Some,
        ensures
            r.val() == self.wick_lower_val(),
    {
        self.body_low() - self.low
    }

    /// Signed price change: `close - open`.
    ///
    /// Positive for bullish bars, negative for bearish bars, zero for doji.
    /// Unlike [`body`](Self::body), this preserves direction.
    pub fn price_change(&self) -> (r: Decimal)
        requires
            self.price_change_val() is Some,
        ensures
            r.val() == self.price_change_val(),
    {
        self.close - self.open
    }

    /// Typical price: `(high + low + close) / 3`.
    ///
    /// Commonly used as the basis for VWAP and commodity channel index (CCI)
    /// calculations.
    pub fn typical_price(&self) -> (r: Decimal)
        requires
            self.typical_price_val() is Some,
        ensures
            r.val() == self.typical_price_val(),
    {
        (self.high + self.low + self.close) / Decimal::whole(3)
    }

    /// Close Location Value (CLV): where the close sits within the bar's range.
    ///
    /// Formula: `(close - low - (high - close)) / range`.
    ///
    /// Returns `None` if the range is zero (e.g. a single-price bar). Values
    /// are in `[-1.0, 1.0]`: `+1.0` means the close is at the high, `-1.0` at
    /// the low, and `0.0` means the close is exactly mid-range.
    pub fn close_location_value(&self) -> (r: Option<Decimal>)
        requires
            self.range_val() is Some,
            !is_nought(self.range_val())
                ==> self.close_location_val() is Some,
        ensures
            yields(r, !is_nought(self.range_val()), self.close_location_val()),
    {
        let range = self.range();
        if range.is_zero() {
            return None;
        }
        Some((self.close - self.low - (self.high - self.close)) / range)
    }

    /// Median price: `(high + low) / 2`.
    ///
    /// The midpoint of the bar's price range, independent of open and close.
    pub fn median_price(&self) -> (r: Decimal)
        requires
            self.median_price_val() is Some,
        ensures
            r.val() == self.median_price_val(),
    {
        (self.high + self.low) / Decimal::whole(2)
    }

    /// Weighted close price: `(high + low + close × 2) / 4`.
    ///
    /// Gives extra weight to the closing price over the high and low extremes.
    /// Commonly used as the basis for certain momentum and volatility indicators.
    pub fn weighted_close(&self) -> (r: Decimal)
        requires
            over(
                plus(
                    plus(plus(self.high.val(), self.low.val()), self.close.val()),
                    self.close.val(),
                ),
                whole(4),
            ) is Some,
        ensures
            r.val()
                == over(
                    plus(
                        plus(plus(self.high.val(), self.low.val()), self.close.val()),
                        self.close.val(),
                    ),
                    whole(4),
                ),
    {
        (self.high + self.low + self.close + self.close) / Decimal::whole(4)
    }

    /// Percentage price change: `(close − open) / open × 100`.
    ///
    /// Returns `None` if `open` is zero. Positive values indicate a bullish bar;
    /// negative values indicate a bearish bar.
    pub fn price_change_pct(&self) -> (r: Option<Decimal>)
        requires
            self.open@ != 0
                ==> times(over(self.price_change_val(), self.open.val()), whole(100)) is Some,
        ensures
            yields(
                r,
                self.open@ != 0,
                times(over(self.price_change_val(), self.open.val()), whole(100)),
            ),
    {
        if self.open.is_zero() {
            return None;
        }
        Some(self.price_change() / self.open * Decimal::whole(100))
    }

    /// Body ratio: `body / range`.
    ///
    /// The fraction of the total price range that is body (rather than wicks).
    /// Ranges from `0.0` (pure wicks / doji) to `1.0` (no wicks at all).
    /// Returns `None` if the bar's range is zero (all prices identical).
    pub fn body_ratio(&self) -> (r: Option<Decimal>)
        requires
            self.range_val() is Some,
            !is_nought(self.range_val()) ==> over(self.body_val(), self.range_val()) is Some,
        ensures
            yields(r, !is_nought(self.range_val()), over(self.body_val(), self.range_val())),
    {
        let range = self.range();
        if range.is_zero() {
            return None;
        }
        Some(self.body() / range)
    }

    /// True range: `max(high − low, |high − prev_close|, |low − prev_close|)`.
    ///
    /// The standard ATR (Average True Range) input. Accounts for overnight gaps by
    /// including the distance from the previous close to today's high and low.
    pub fn true_range(&self, prev_close: Decimal) -> (r: Decimal)
        requires
            self.true_range_val(prev_close.num()) is Some,
        ensures
            r.val() == self.true_range_val(prev_close.num()),
    {
        let hl = self.range();
        let hpc = (self.high - prev_close).abs();
        let lpc = (self.low - prev_close).abs();
        hl.max(hpc).max(lpc)
    }

    /// Returns `true` if this bar is an inside bar relative to `prev`.
    ///
    /// An inside bar has `high < prev.high` and `low > prev.low` — its full
    /// range is contained within the prior bar's range. Used in price action
    /// trading as a consolidation signal.
    pub fn inside_bar(&self, prev: &OhlcvBar) -> (r: bool)
        ensures
            r == self.inside(*prev),
    {
        self.is_inside_bar(prev)
    }

    /// Returns `true` if this bar is an outside bar relative to `prev`.
    ///
    /// An outside bar has `high > prev.high` and `low < prev.low` — it fully
    /// engulfs the prior bar's range. Also called a key reversal day.
    pub fn outside_bar(&self, prev: &OhlcvBar) -> (r: bool)
        ensures
            r == prev.inside(*self),
    {
        self.high > prev.high && self.low < prev.low
    }

    /// Returns the ratio of total wick length to bar range: `(upper_wick + lower_wick) / range`.
    ///
    /// A value near 1 indicates a bar that is mostly wicks with little body.
    /// Returns `None` when the bar has zero range (high == low).
    pub fn wick_ratio(&self) -> (r: Option<Decimal>)
        requires
            self.range_val() is Some,
            !is_nought(self.range_val())
                ==> over(plus(self.wick_upper_val(), self.wick_lower_val()), self.range_val()) is Some,
        ensures
            yields(
                r,
                !is_nought(self.range_val()),
                over(plus(self.wick_upper_val(), self.wick_lower_val()), self.range_val()),
            ),
    {
        let range = self.range();
        if range.is_zero() {
            return None;
        }
        Some((self.wick_upper() + self.wick_lower()) / range)
    }

    /// Returns `true` if this bar has a classic hammer shape.
    ///
    /// A hammer has:
    /// - A small body (≤ 30% of range)
    /// - A long lower wick (≥ 60% of range)
    /// - A tiny upper wick (≤ 10% of range)
    ///
    /// Returns `false` if the bar's range is zero.
    pub fn is_hammer(&self) -> (r: bool)
        requires
            self.range_val() is Some,
            !is_nought(self.range_val()) ==> self.body_val() is Some,
            !is_nought(self.range_val()) ==> self.wick_lower_val() is Some,
            !is_nought(self.range_val()) ==> self.wick_upper_val() is Some,
            !is_nought(self.range_val()) ==> times(self.body_val(), whole(10)) is Some,
            !is_nought(self.range_val()) ==> times(self.range_val(), whole(3)) is Some,
            !is_nought(self.range_val())
                && times(self.body_val(), whole(10))->0.units <= times(self.range_val(), whole(3))->0.units
                ==> times(self.wick_lower_val(), whole(10)) is Some,
            !is_nought(self.range_val())
                && times(self.body_val(), whole(10))->0.units <= times(self.range_val(), whole(3))->0.units
                ==> times(self.range_val(), whole(6)) is Some,
            !is_nought(self.range_val())
                && times(self.body_val(), whole(10))->0.units <= times(self.range_val(), whole(3))->0.units
                && times(self.wick_lower_val(), whole(10))->0.units >= times(self.range_val(), whole(6))->0.units
                ==> times(self.wick_upper_val(), whole(10)) is Some,
        ensures
            r
                == (
                    !is_nought(self.range_val())
                        && times(self.body_val(), whole(10))->0.units <= times(self.range_val(), whole(3))->0.units
                        && times(self.wick_lower_val(), whole(10))->0.units
                            >= times(self.range_val(), whole(6))->0.units
                        && times(self.wick_upper_val(), whole(10))->0.units <= self.range_val()->0.units
                ),
    {
        let range = self.range();
        if range.is_zero() {
            return false;
        }
        let body = self.body();
        let wick_lo = self.wick_lower();
        let wick_hi = self.wick_upper();
        let three = Decimal::whole(3);
        let six = Decimal::whole(6);
        let ten = Decimal::whole(10);
        body * ten <= range * three && wick_lo * ten >= range * six && wick_hi * ten <= range
    }

    /// Returns `true` if this bar has a classic shooting-star shape.
    ///
    /// A shooting star has:
    /// - A small body (≤ 30% of range)
    /// - A long upper wick (≥ 60% of range)
    /// - A tiny lower wick (≤ 10% of range)
    ///
    /// This is the inverse of a hammer — it signals a potential reversal at
    /// the top of an uptrend. Returns `false` if the bar's range is zero.
    pub fn is_shooting_star(&self) -> (r: bool)
        requires
            self.range_val() is Some,
            !is_nought(self.range_val()) ==> self.body_val() is Some,
            !is_nought(self.range_val()) ==> self.wick_lower_val() is Some,
            !is_nought(self.range_val()) ==> self.wick_upper_val() is Some,
            !is_nought(self.range_val()) ==> times(self.body_val(), whole(10)) is Some,
            !is_nought(self.range_val()) ==> times(self.range_val(), whole(3)) is Some,
            !is_nought(self.range_val())
                && times(self.body_val(), whole(10))->0.units <= times(self.range_val(), whole(3))->0.units
                ==> times(self.wick_upper_val(), whole(10)) is Some,
            !is_nought(self.range_val())
                && times(self.body_val(), whole(10))->0.units <= times(self.range_val(), whole(3))->0.units
                ==> times(self.range_val(), whole(6)) is Some,
            !is_nought(self.range_val())
                && times(self.body_val(), whole(10))->0.units <= times(self.range_val(), whole(3))->0.units
                && times(self.wick_upper_val(), whole(10))->0.units >= times(self.range_val(), whole(6))->0.units
                ==> times(self.wick_lower_val(), whole(10)) is Some,
        ensures
            r
                == (
                    !is_nought(self.range_val())
                        && times(self.body_val(), whole(10))->0.units <= times(self.range_val(), whole(3))->0.units
                        && times(self.wick_upper_val(), whole(10))->0.units
                            >= times(self.range_val(), whole(6))->0.units
                        && times(self.wick_lower_val(), whole(10))->0.units <= self.range_val()->0.units
                ),
    {
        let range = self.range();
        if range.is_zero() {
            return false;
        }
        let body = self.body();
        let wick_lo = self.wick_lower();
        let wick_hi = self.wick_upper();
        let three = Decimal::whole(3);
        let six = Decimal::whole(6);
        let ten = Decimal::whole(10);
        body * ten <= range * three && wick_hi * ten >= range * six && wick_lo * ten <= range
    }

    /// Gap from the previous bar: `self.open − prev.close`.
    ///
    /// Positive values indicate a gap-up; negative values indicate a gap-down.
    /// Zero means the bar opened exactly at the previous close (no gap).
    pub fn gap_from(&self, prev: &OhlcvBar) -> (r: Decimal)
        requires
            minus(self.open.val(), prev.close.val()) is Some,
        ensures
            r.val() == minus(self.open.val(), prev.close.val()),
    {
        self.open - prev.close
    }

    /// Returns `true` if this bar opened above the previous bar's close.
    pub fn is_gap_up(&self, prev: &OhlcvBar) -> (r: bool)
        ensures
            r == (self.open@ > prev.close@),
    {
        self.open > prev.close
    }

    /// Returns `true` if this bar opened below the previous bar's close.
    pub fn is_gap_down(&self, prev: &OhlcvBar) -> (r: bool)
        ensures
            r == (self.open@ < prev.close@),
    {
        self.open < prev.close
    }

    /// Body midpoint: `(open + close) / 2`.
    ///
    /// The arithmetic center of the candle body, regardless of direction.
    /// Useful as a proxy for the "fair value" of the period.
    pub fn bar_midpoint(&self) -> (r: Decimal)
        requires
            over(plus(self.open.val(), self.close.val()), whole(2)) is Some,
        ensures
            r.val() == over(plus(self.open.val(), self.close.val()), whole(2)),
    {
        (self.open + self.close) / Decimal::whole(2)
    }

    /// Body as a fraction of total range: `body / range`.
    ///
    /// Returns `None` when `range` is zero (all OHLC prices identical).
    pub fn body_to_range_ratio(&self) -> (r: Option<Decimal>)
        requires
            self.range_val() is Some,
            !is_nought(self.range_val()) ==> over(self.body_val(), self.range_val()) is Some,
        ensures
            yields(r, !is_nought(self.range_val()), over(self.body_val(), self.range_val())),
    {
        let range = self.range();
        if range.is_zero() {
            return None;
        }
        Some(self.body() / range)
    }

    /// Returns `true` if the upper wick is longer than the candle body.
    ///
    /// Indicates a bearish rejection at the high (supply above current price).
    pub fn is_long_upper_wick(&self) -> (r: bool)
        requires
            self.wick_upper_val() is Some,
            self.body_val() is Some,
        ensures
            r == (self.wick_upper_val()->0.units > self.body_val()->0.units),
    {
        self.wick_upper() > self.body()
    }

    /// Returns `true` if the lower wick is longer than the candle body.
    ///
    /// Indicates a bullish rejection at the low (demand below current price).
    pub fn is_long_lower_wick(&self) -> (r: bool)
        requires
            self.wick_lower_val() is Some,
            self.body_val() is Some,
        ensures
            r == (self.wick_lower_val()->0.units > self.body_val()->0.units),
    {
        self.wick_lower() > self.body()
    }

    /// Absolute price change over the bar: `|close − open|`.
    ///
    /// Alias for [`body`](Self::body).
    pub fn price_change_abs(&self) -> (r: Decimal)
        requires
            self.body_val() is Some,
        ensures
            r.val() == self.body_val(),
    {
        self.body()
    }

    /// Upper shadow length — alias for [`wick_upper`](Self::wick_upper).
    ///
    /// Returns `high − max(open, close)`.
    pub fn upper_shadow(&self) -> (r: Decimal)
        requires
            self.wick_upper_val() is Some,
        ensures
            r.val() == self.wick_upper_val(),
    {
        self.wick_upper()
    }

    /// Lower shadow length — alias for [`wick_lower`](Self::wick_lower).
    ///
    /// Returns `min(open, close) − low`.
    pub fn lower_shadow(&self) -> (r: Decimal)
        requires
            self.wick_lower_val() is Some,
        ensures
            r.val() == self.wick_lower_val(),
    {
        self.wick_lower()
    }

    /// Returns `true` if this bar has a spinning-top pattern.
    ///
    /// A spinning top has a small body (≤ `body_pct` of range) with significant
    /// wicks on both sides (each wick strictly greater than the body). Signals
    /// market indecision — neither buyers nor sellers controlled the period.
    ///
    /// `body_pct` is a fraction in `[0.0, 1.0]`, e.g. `0.3` for 30%.
    /// Returns `false` if the bar's range is zero.
    pub fn is_spinning_top(&self, body_pct: Decimal) -> (r: bool)
        requires
            self.range_val() is Some,
            !is_nought(self.range_val()) ==> self.body_val() is Some,
            !is_nought(self.range_val()) ==> times(self.range_val(), body_pct.val()) is Some,
            !is_nought(self.range_val())
                && self.body_val()->0.units <= times(self.range_val(), body_pct.val())->0.units
                ==> self.wick_upper_val() is Some,
            !is_nought(self.range_val())
                && self.body_val()->0.units <= times(self.range_val(), body_pct.val())->0.units
                && self.wick_upper_val()->0.units > self.body_val()->0.units
                ==> self.wick_lower_val() is Some,
        ensures
            r
                == (
                    !is_nought(self.range_val())
                        && self.body_val()->0.units <= times(self.range_val(), body_pct.val())->0.units
                        && self.wick_upper_val()->0.units > self.body_val()->0.units
                        && self.wick_lower_val()->0.units > self.body_val()->0.units
                ),
    {
        let range = self.range();
        if range.is_zero() {
            return false;
        }
        let body = self.body();
        let max_body = range * body_pct;
        body <= max_body && self.wick_upper() > body && self.wick_lower() > body
    }

    /// HLC3: `(high + low + close) / 3` — alias for [`typical_price`](Self::typical_price).
    pub fn hlc3(&self) -> (r: Decimal)
        requires
            self.typical_price_val() is Some,
        ensures
            r.val() == self.typical_price_val(),
    {
        self.typical_price()
    }

    /// OHLC4: `(open + high + low + close) / 4`.
    ///
    /// Gives equal weight to all four price points. Sometimes used as a smoother
    /// proxy than typical price because it incorporates the open.
    pub fn ohlc4(&self) -> (r: Decimal)
        requires
            over(
                plus(
                    plus(plus(self.open.val(), self.high.val()), self.low.val()),
                    self.close.val(),
                ),
                whole(4),
            ) is Some,
        ensures
            r.val()
                == over(
                    plus(
                        plus(plus(self.open.val(), self.high.val()), self.low.val()),
                        self.close.val(),
                    ),
                    whole(4),
                ),
    {
        (self.open + self.high + self.low + self.close) / Decimal::whole(4)
    }

    /// Returns `true` if this bar is a marubozu — no upper or lower wicks.
    ///
    /// A marubozu has `open == low` and `close == high` (bullish) or
    /// `open == high` and `close == low` (bearish). It signals strong
    /// one-directional momentum with no intrabar rejection.
    /// A zero-range bar (all prices equal) is considered a marubozu.
    pub fn is_marubozu(&self) -> (r: bool)
        requires
            self.wick_upper_val() is Some,
            is_nought(self.wick_upper_val()) ==> self.wick_lower_val() is Some,
        ensures
            r == (is_nought(self.wick_upper_val()) && is_nought(self.wick_lower_val())),
    {
        self.wick_upper().is_zero() && self.wick_lower().is_zero()
    }

    /// Returns `true` if this bar's body engulfs `prev`'s body.
    ///
    /// Engulfing requires: `self.open < prev.open.min(prev.close)` and
    /// `self.close > prev.open.max(prev.close)` (or vice versa for bearish).
    /// Specifically, `self.body_low < prev.body_low` and
    /// `self.body_high > prev.body_high`.
    ///
    /// Does NOT require opposite directions — use in combination with
    /// [`is_bullish`](Self::is_bullish) / [`is_bearish`](Self::is_bearish) if
    /// classic engulfing patterns are needed.
    pub fn is_engulfing(&self, prev: &OhlcvBar) -> (r: bool)
        ensures
            r == self.engulfs(*prev),
    {
        self.body_low() < prev.body_low() && self.body_high() > prev.body_high()
    }

    /// Returns `true` if this bar is a harami: its body is entirely contained
    /// within the previous bar's body.
    ///
    /// A harami is the opposite of an engulfing pattern. Neither bar needs to
    /// be bullish or bearish — only the body ranges are compared.
    pub fn is_harami(&self, prev: &OhlcvBar) -> (r: bool)
        ensures
            r == prev.engulfs(*self),
    {
        self.body_low() > prev.body_low() && self.body_high() < prev.body_high()
    }

    /// The longer of the upper and lower wicks.
    ///
    /// Returns the maximum of `wick_upper()` and `wick_lower()`. Useful for
    /// identifying long-tailed candles regardless of direction.
    pub fn tail_length(&self) -> (r: Decimal)
        requires
            larger(self.wick_upper_val(), self.wick_lower_val()) is Some,
        ensures
            r.val() == larger(self.wick_upper_val(), self.wick_lower_val()),
    {
        self.wick_upper().max(self.wick_lower())
    }

    /// Returns `true` if this bar is an inside bar: both `high` and `low` are
    /// strictly within the previous bar's range.
    ///
    /// Unlike [`is_harami`](Self::is_harami), which compares body ranges,
    /// this method compares the full high-low range including wicks.
    pub fn is_inside_bar(&self, prev: &OhlcvBar) -> (r: bool)
        ensures
            r == self.inside(*prev),
    {
        self.high < prev.high && self.low > prev.low
    }

    /// Returns `true` if this bar opened above the previous bar's high (gap up).
    pub fn gap_up(&self, prev: &OhlcvBar) -> (r: bool)
        ensures
            r == (self.open@ > prev.high@),
    {
        self.open > prev.high
    }

    /// Returns `true` if this bar opened below the previous bar's low (gap down).
    pub fn gap_down(&self, prev: &OhlcvBar) -> (r: bool)
        ensures
            r == (self.open@ < prev.low@),
    {
        self.open < prev.low
    }

    /// Absolute size of the candle body: `|close - open|`.
    ///
    /// Alias for [`body`](Self::body).
    pub fn body_size(&self) -> (r: Decimal)
        requires
            self.body_val() is Some,
        ensures
            r.val() == self.body_val(),
    {
        self.body()
    }

    /// Volume change vs the previous bar: `self.volume - prev.volume`.
    pub fn volume_delta(&self, prev: &OhlcvBar) -> (r: Decimal)
        requires
            minus(self.volume.val(), prev.volume.val()) is Some,
        ensures
            r.val() == minus(self.volume.val(), prev.volume.val()),
    {
        self.volume - prev.volume
    }

    /// Returns `true` if this bar's range is less than 50% of the previous bar's range.
    ///
    /// Indicates price consolidation / compression.
    pub fn is_consolidating(&self, prev: &OhlcvBar) -> (r: bool)
        requires
            prev.range_val() is Some,
            !is_nought(prev.range_val()) ==> self.range_val() is Some,
            !is_nought(prev.range_val()) ==> over(prev.range_val(), whole(2)) is Some,
        ensures
            r
                == (
                    !is_nought(prev.range_val())
                        && self.range_val()->0.units < over(prev.range_val(), whole(2))->0.units
                ),
    {
        let prev_range = prev.range();
        if prev_range.is_zero() {
            return false;
        }
        self.range() < prev_range / Decimal::whole(2)
    }

    /// Absolute deviation of close price from VWAP as a fraction of VWAP: `|close - vwap| / vwap`.
    ///
    /// Returns `None` if `vwap` is not set or is zero.
    pub fn vwap_deviation(&self) -> (r: Option<Decimal>)
        requires
            self.vwap is Some && self.vwap->0@ != 0
                ==> over(
                    magnitude(minus(self.close.val(), self.vwap->0.val())),
                    self.vwap->0.val(),
                ) is Some,
        ensures
            yields(
                r,
                self.vwap is Some && self.vwap->0@ != 0,
                over(magnitude(minus(self.close.val(), self.vwap->0.val())), self.vwap->0.val()),
            ),
    {
        let vwap = self.vwap?;
        if vwap.is_zero() {
            return None;
        }
        Some((self.close - vwap).abs() / vwap)
    }

    /// Volume as a ratio of `avg_volume`.
    ///
    /// Returns `None` if `avg_volume` is zero.
    pub fn relative_volume(&self, avg_volume: Decimal) -> (r: Option<Decimal>)
        requires
            avg_volume@ != 0 ==> over(self.volume.val(), avg_volume.val()) is Some,
        ensures
            yields(r, avg_volume@ != 0, over(self.volume.val(), avg_volume.val())),
    {
        if avg_volume.is_zero() {
            return None;
        }
        Some(self.volume / avg_volume)
    }

    /// Returns `true` if this bar opens in the direction of the prior bar's move
    /// but closes against it (an intraday reversal signal).
    ///
    /// Specifically: prev was bullish (close > open), this bar opens near/above prev close,
    /// and closes below prev open — or vice versa for a bearish reversal.
    pub fn intraday_reversal(&self, prev: &OhlcvBar) -> (r: bool)
        ensures
            r
                == (
                    prev.close@ > prev.open@
                        && self.open@ >= prev.close@
                        && self.close@ < prev.open@
                        || prev.close@ < prev.open@
                            && self.open@ <= prev.close@
                            && self.close@ > prev.open@
                ),
    {
        prev.close > prev.open && self.open >= prev.close && self.close < prev.open
            || prev.close < prev.open && self.open <= prev.close && self.close > prev.open
    }

    /// Returns `true` if this bar is an outside bar (engulfs `prev`'s range).
    ///
    /// An outside bar has a higher high AND lower low than the previous bar.
    /// Alias for [`outside_bar`](Self::outside_bar).
    pub fn is_outside_bar(&self, prev: &OhlcvBar) -> (r: bool)
        ensures
            r == prev.inside(*self),
    {
        self.outside_bar(prev)
    }

    /// Midpoint of the high-low range: `(high + low) / 2`.
    ///
    /// Alias for [`median_price`](Self::median_price).
    pub fn high_low_midpoint(&self) -> (r: Decimal)
        requires
            self.median_price_val() is Some,
        ensures
            r.val() == self.median_price_val(),
    {
        self.median_price()
    }

    /// Ratio of close to high: `close / high`.
    ///
    /// Returns `None` if `high` is zero. A value near 1.0 means the bar closed
    /// near its high (bullish strength); near 0.0 means it closed far below.
    pub fn high_close_ratio(&self) -> (r: Option<Decimal>)
        requires
            self.high@ != 0 ==> over(self.close.val(), self.high.val()) is Some,
        ensures
            yields(r, self.high@ != 0, over(self.close.val(), self.high.val())),
    {
        if self.high.is_zero() {
            return None;
        }
        Some(self.close / self.high)
    }

    /// Lower shadow as a fraction of the full bar range: `lower_shadow / range`.
    ///
    /// Returns `None` if the bar's range is zero.
    pub fn lower_shadow_pct(&self) -> (r: Option<Decimal>)
        requires
            self.range_val() is Some,
            !is_nought(self.range_val())
                ==> over(self.wick_lower_val(), self.range_val()) is Some,
        ensures
            yields(
                r,
                !is_nought(self.range_val()),
                over(self.wick_lower_val(), self.range_val()),
            ),
    {
        let range = self.range();
        if range.is_zero() {
            return None;
        }
        Some(self.lower_shadow() / range)
    }

    /// Ratio of close to open: `close / open`.
    ///
    /// Returns `None` if `open` is zero. Values above 1.0 indicate a bullish bar.
    pub fn open_close_ratio(&self) -> (r: Option<Decimal>)
        requires
            self.open@ != 0 ==> over(self.close.val(), self.open.val()) is Some,
        ensures
            yields(r, self.open@ != 0, over(self.close.val(), self.open.val())),
    {
        if self.open.is_zero() {
            return None;
        }
        Some(self.close / self.open)
    }

    /// Returns `true` if this bar's range (`high - low`) exceeds `threshold`.
    pub fn is_wide_range_bar(&self, threshold: Decimal) -> (r: bool)
        requires
            self.range_val() is Some,
        ensures
            r == (self.range_val()->0.units > threshold@),
    {
        self.range() > threshold
    }

    /// Position of close within the bar's high-low range: `(close - low) / (high - low)`.
    ///
    /// Returns `None` if the bar's range is zero. Result is in `[0.0, 1.0]`:
    /// - `0.0` → closed at the low (bearish)
    /// - `1.0` → closed at the high (bullish)
    pub fn close_to_low_ratio(&self) -> (r: Option<Decimal>)
        requires
            self.range_val() is Some,
            !is_nought(self.range_val())
                ==> over(minus(self.close.val(), self.low.val()), self.range_val()) is Some,
        ensures
            yields(
                r,
                !is_nought(self.range_val()),
                over(minus(self.close.val(), self.low.val()), self.range_val()),
            ),
    {
        let range = self.range();
        if range.is_zero() {
            return None;
        }
        Some((self.close - self.low) / range)
    }

    /// Average volume per trade: `volume / trade_count`.
    ///
    /// Returns `None` if `trade_count` is zero.
    pub fn volume_per_trade(&self) -> (r: Option<Decimal>)
        requires
            self.trade_count != 0
                ==> over(self.volume.val(), whole(self.trade_count as int)) is Some,
        ensures
            yields(
                r,
                self.trade_count != 0,
                over(self.volume.val(), whole(self.trade_count as int)),
            ),
    {
        if self.trade_count == 0 {
            return None;
        }
        Some(self.volume / Decimal::count(self.trade_count))
    }

    /// Returns `true` if this bar's high-low range overlaps with `other`'s range.
    ///
    /// Two ranges overlap when neither is entirely above or below the other.
    pub fn price_range_overlap(&self, other: &OhlcvBar) -> (r: bool)
        ensures
            r == (self.high@ >= other.low@ && other.high@ >= self.low@),
    {
        self.high >= other.low && other.high >= self.low
    }

    /// Bar height as a fraction of the open price: `(high - low) / open`.
    ///
    /// Returns `None` if `open` is zero. Useful for comparing volatility across
    /// instruments trading at different price levels.
    pub fn bar_height_pct(&self) -> (r: Option<Decimal>)
        requires
            self.open@ != 0 ==> over(self.range_val(), self.open.val()) is Some,
        ensures
            yields(r, self.open@ != 0, over(self.range_val(), self.open.val())),
    {
        if self.open.is_zero() {
            return None;
        }
        Some(self.range() / self.open)
    }

    /// Classifies this bar as `"bullish"`, `"bearish"`, or `"doji"`.
    ///
    /// A doji is a bar whose body is zero (open equals close). Otherwise the
    /// direction is determined by whether close is above or below open.
    pub fn bar_type(&self) -> (r: &'static str)
        ensures
            r@ == (if self.close@ == self.open@ {
                "doji"@
            } else if self.close@ > self.open@ {
                "bullish"@
            } else {
                "bearish"@
            }),
    {
        if self.close == self.open {
            "doji"
        } else if self.close > self.open {
            "bullish"
        } else {
            "bearish"
        }
    }

    /// High-low range as a percentage of the open price: `(high - low) / open * 100`.
    ///
    /// Returns `None` if open is zero.
    pub fn range_pct(&self) -> (r: Option<Decimal>)
        requires
            self.open@ != 0 ==> times(over(self.range_val(), self.open.val()), whole(100)) is Some,
        ensures
            yields(
                r,
                self.open@ != 0,
                times(over(self.range_val(), self.open.val()), whole(100)),
            ),
    {
        if self.open.is_zero() {
            return None;
        }
        Some(self.range() / self.open * Decimal::whole(100))
    }

    /// Body as a percentage of the total high-low range.
    ///
    /// Returns `None` when the range is zero (all four prices equal).
    /// A 100% body means no wicks (marubozu); near 0% means a doji.
    pub fn body_pct(&self) -> (r: Option<Decimal>)
        requires
            self.range_val() is Some,
            !is_nought(self.range_val())
                ==> times(over(self.body_val(), self.range_val()), whole(100)) is Some,
        ensures
            yields(
                r,
                !is_nought(self.range_val()),
                times(over(self.body_val(), self.range_val()), whole(100)),
            ),
    {
        let range = self.range();
        if range.is_zero() {
            return None;
        }
        Some(self.body() / range * Decimal::whole(100))
    }

    /// Returns `true` if this bar is a bullish hammer: a long lower wick,
    /// small body near the top of the range, and little or no upper wick.
    ///
    /// Specifically: the lower wick is at least twice the body, and the upper
    /// wick is no more than the body.
    pub fn is_bullish_hammer(&self) -> (r: bool)
        requires
            self.body_val() is Some,
            !is_nought(self.body_val()) ==> self.wick_lower_val() is Some,
            !is_nought(self.body_val()) ==> self.wick_upper_val() is Some,
            !is_nought(self.body_val()) ==> times(self.body_val(), whole(2)) is Some,
        ensures
            r
                == (
                    !is_nought(self.body_val())
                        && self.wick_lower_val()->0.units >= times(self.body_val(), whole(2))->0.units
                        && self.wick_upper_val()->0.units <= self.body_val()->0.units
                ),
    {
        let body = self.body();
        if body.is_zero() {
            return false;
        }
        let lower = self.wick_lower();
        let upper = self.wick_upper();
        lower >= body * Decimal::whole(2) && upper <= body
    }

    /// Upper wick as a percentage of the total range (0–100).
    ///
    /// Returns `None` when the range is zero.
    pub fn upper_wick_pct(&self) -> (r: Option<Decimal>)
        requires
            self.range_val() is Some,
            !is_nought(self.range_val())
                ==> times(over(self.wick_upper_val(), self.range_val()), whole(100)) is Some,
        ensures
            yields(
                r,
                !is_nought(self.range_val()),
                times(over(self.wick_upper_val(), self.range_val()), whole(100)),
            ),
    {
        let range = self.range();
        if range.is_zero() {
            return None;
        }
        Some(self.wick_upper() / range * Decimal::whole(100))
    }

    /// Lower wick as a percentage of the total range (0–100).
    ///
    /// Returns `None` when the range is zero.
    pub fn lower_wick_pct(&self) -> (r: Option<Decimal>)
        requires
            self.range_val() is Some,
            !is_nought(self.range_val())
                ==> times(over(self.wick_lower_val(), self.range_val()), whole(100)) is Some,
        ensures
            yields(
                r,
                !is_nought(self.range_val()),
                times(over(self.wick_lower_val(), self.range_val()), whole(100)),
            ),
    {
        let range = self.range();
        if range.is_zero() {
            return None;
        }
        Some(self.wick_lower() / range * Decimal::whole(100))
    }

    /// Returns `true` if this bar is a bearish engulfing candle relative to `prev`.
    ///
    /// A bearish engulfing has: current bar bearish, body entirely engulfs prev body.
    pub fn is_bearish_engulfing(&self, prev: &OhlcvBar) -> (r: bool)
        ensures
            r == (self.close@ < self.open@ && self.engulfs(*prev)),
    {
        self.is_bearish() && self.is_engulfing(prev)
    }

    /// Returns `true` if this bar is a bullish engulfing candle relative to `prev`.
    ///
    /// A bullish engulfing has: current bar bullish, body entirely engulfs prev body.
    pub fn is_bullish_engulfing(&self, prev: &OhlcvBar) -> (r: bool)
        ensures
            r == (self.close@ > self.open@ && self.engulfs(*prev)),
    {
        self.is_bullish() && self.is_engulfing(prev)
    }

    /// Gap between this bar's open and the previous bar's close: `self.open - prev.close`.
    ///
    /// A positive value indicates an upward gap; negative indicates a downward gap.
    /// Alias for [`gap_from`](Self::gap_from).
    pub fn close_gap(&self, prev: &OhlcvBar) -> (r: Decimal)
        requires
            minus(self.open.val(), prev.close.val()) is Some,
        ensures
            r.val() == minus(self.open.val(), prev.close.val()),
    {
        self.gap_from(prev)
    }

    /// Returns `true` if the close price is strictly above the bar's midpoint `(high + low) / 2`.
    pub fn close_above_midpoint(&self) -> (r: bool)
        requires
            self.median_price_val() is Some,
        ensures
            r == (self.close@ > self.median_price_val()->0.units),
    {
        self.close > self.high_low_midpoint()
    }

    /// Price momentum: `self.close - prev.close`.
    ///
    /// Positive → price increased; negative → decreased.
    pub fn close_momentum(&self, prev: &OhlcvBar) -> (r: Decimal)
        requires
            minus(self.close.val(), prev.close.val()) is Some,
        ensures
            r.val() == minus(self.close.val(), prev.close.val()),
    {
        self.close - prev.close
    }

    /// Full high-low range of the bar: `high - low`.
    ///
    /// Alias for [`range`](Self::range).
    pub fn bar_range(&self) -> (r: Decimal)
        requires
            self.range_val() is Some,
        ensures
            r.val() == self.range_val(),
    {
        self.range()
    }

    /// Duration of this bar's timeframe in milliseconds.
    pub fn bar_duration_ms(&self) -> (r: u64)
        requires
            self.timeframe.millis() <= u64::MAX,
        ensures
            r == self.timeframe.millis(),
    {
        self.timeframe.duration_ms()
    }

    /// Returns `true` if this bar resembles a gravestone doji.
    ///
    /// A gravestone doji has open ≈ close ≈ low (body within `epsilon` of
    /// zero and close within `epsilon` of the low), with a long upper wick.
    pub fn is_gravestone_doji(&self, epsilon: Decimal) -> (r: bool)
        requires
            self.body_val() is Some,
            self.body_val()->0.units <= epsilon@
                ==> magnitude(minus(self.close.val(), self.low.val())) is Some,
        ensures
            r
                == (
                    self.body_val()->0.units <= epsilon@
                        && magnitude(minus(self.close.val(), self.low.val()))->0.units <= epsilon@
                ),
    {
        self.body() <= epsilon && (self.close - self.low).abs() <= epsilon
    }

    /// Returns `true` if this bar resembles a dragonfly doji.
    ///
    /// A dragonfly doji has open ≈ close ≈ high (body within `epsilon` of
    /// zero and close within `epsilon` of the high), with a long lower wick.
    pub fn is_dragonfly_doji(&self, epsilon: Decimal) -> (r: bool)
        requires
            self.body_val() is Some,
            self.body_val()->0.units <= epsilon@
                ==> magnitude(minus(self.high.val(), self.close.val())) is Some,
        ensures
            r
                == (
                    self.body_val()->0.units <= epsilon@
                        && magnitude(minus(self.high.val(), self.close.val()))->0.units <= epsilon@
                ),
    {
        self.body() <= epsilon && (self.high - self.close).abs() <= epsilon
    }

    /// Returns `true` if this bar is completely flat (open == close == high == low).
    ///
    /// For a valid OHLCV bar, `range() == 0` is sufficient: since `low ≤ open, close ≤ high`,
    /// `high == low` forces all four prices equal.
    pub fn is_flat(&self) -> (r: bool)
        requires
            self.range_val() is Some,
        ensures
            r == (is_nought(self.range_val())),
    {
        self.range().is_zero()
    }

    /// True range: `max(high - low, |high - prev_close|, |low - prev_close|)`.
    ///
    /// Alias for [`true_range`](Self::true_range).
    pub fn true_range_with_prev(&self, prev_close: Decimal) -> (r: Decimal)
        requires
            self.true_range_val(prev_close.num()) is Some,
        ensures
            r.val() == self.true_range_val(prev_close.num()),
    {
        self.true_range(prev_close)
    }

    /// Returns the ratio of close to high, or `None` if high is zero.
    ///
    /// Alias for [`high_close_ratio`](Self::high_close_ratio).
    pub fn close_to_high_ratio(&self) -> (r: Option<Decimal>)
        requires
            self.high@ != 0 ==> over(self.close.val(), self.high.val()) is Some,
        ensures
            yields(r, self.high@ != 0, over(self.close.val(), self.high.val())),
    {
        self.high_close_ratio()
    }

    /// Returns the ratio of close to open, or `None` if open is zero.
    ///
    /// Alias for [`open_close_ratio`](Self::open_close_ratio).
    pub fn close_open_ratio(&self) -> (r: Option<Decimal>)
        requires
            self.open@ != 0 ==> over(self.close.val(), self.open.val()) is Some,
        ensures
            yields(r, self.open@ != 0, over(self.close.val(), self.open.val())),
    {
        self.open_close_ratio()
    }

    /// Interpolates a price within the bar's high-low range.
    ///
    /// `pct = 0` returns `low`; `pct = 1` returns `high`.
    /// Values outside `[0, 1]` are clamped to that interval.
    pub fn price_at_pct(&self, pct: Decimal) -> (r: Decimal)
        requires
            self.price_at_val(pct.num()) is Some,
        ensures
            r.val() == self.price_at_val(pct.num()),
    {
        let factor = pct.max(Decimal::zero()).min(Decimal::whole(1));
        self.low + self.range() * factor
    }

    /// The symbol, the timeframe, the four prices and the volume on one line.
    pub fn to_string(&self) -> (r: String)
        ensures
            r@ == self.text(),
    {
        let mut r = self.symbol.clone();
        r.append(" ");
        r.append(self.timeframe.to_string().as_str());
        r.append(" [");
        r.append(self.open.to_string().as_str());
        r.append("/");
        r.append(self.high.to_string().as_str());
        r.append("/");
        r.append(self.low.to_string().as_str());
        r.append("/");
        r.append(self.close.to_string().as_str());
        r.append("  v=");
        r.append(self.volume.to_string().as_str());
        r.append("]");
        r
    }
}

} // verus!
