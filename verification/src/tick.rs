//! Ticks.

use crate::decimal::{times, Decimal, Num};
use vstd::prelude::*;

verus! {

/// The exchange that a tick comes from.
#[derive(Clone, Copy, Debug, PartialEq, Eq, Structural)]
pub enum Exchange {
    /// Binance.
    Binance,
}

/// The side of the order that started a trade.
#[derive(Clone, Copy, Debug, PartialEq, Eq, Structural)]
pub enum TradeSide {
    /// A buyer took an offer.
    Buy,
    /// A seller hit a bid.
    Sell,
}

/// One trade, in the same form whatever the exchange.
#[derive(Clone, Debug)]
pub struct NormalizedTick {
    /// The exchange.
    pub exchange: Exchange,
    /// Instrument symbol.
    pub symbol: String,
    /// Price.
    pub price: Decimal,
    /// Quantity.
    pub quantity: Decimal,
    /// Side of the order that started the trade, if known.
    pub side: Option<TradeSide>,
    /// ID of the trade at the exchange, if known.
    pub trade_id: Option<String>,
    /// UTC millisecond timestamp of the exchange, if it gave one.
    pub exchange_ts_ms: Option<u64>,
    /// UTC millisecond timestamp at which the tick was received.
    pub received_at_ms: u64,
}

/// What an aggregator reads of a tick.
pub struct TickView {
    /// Instrument symbol.
    pub symbol: Seq<char>,
    /// Price.
    pub price: Num,
    /// Quantity.
    pub quantity: Num,
    /// The timestamp that counts.
    pub ts_ms: u64,
}

impl View for NormalizedTick {
    type V = TickView;

    open spec fn view(&self) -> TickView {
        TickView {
            symbol: self.symbol@,
            price: self.price.num(),
            quantity: self.quantity.num(),
            ts_ms: match self.exchange_ts_ms {
                Some(ts) => ts,
                None => self.received_at_ms,
            },
        }
    }
}

impl NormalizedTick {
    /// The value of the trade: `price × quantity`.
    pub fn value(&self) -> (r: Decimal)
        requires
            times(self.price.val(), self.quantity.val()) is Some,
        ensures
            r.val() == times(self.price.val(), self.quantity.val()),
    {
        self.price * self.quantity
    }

    /// The timestamp of the exchange where there is one, else the time at which
    /// the tick was received.
    pub fn timestamp_ms(&self) -> (r: u64)
        ensures
            r == self@.ts_ms,
    {
        match self.exchange_ts_ms {
            Some(ts) => ts,
            None => self.received_at_ms,
        }
    }
}

} // verus!
