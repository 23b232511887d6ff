//! Limit order book simulation with price-time priority matching.
//!
//! Prices are whole numbers of units of `1e-8`, and quantities whole numbers of
//! any one unit that the caller settles on. The book groups resting orders into
//! price levels of `0.0001`. A side of the book is a list of levels, best price
//! first, and a level is a queue of orders, oldest first: the order in which
//! resting orders are matched is the order in which they stand in the book.

use crate::natural::Integer;
use crate::order_book_laws::{cancelled_order_is_gone, matching_follows_priority};
use std::collections::VecDeque;
use vstd::prelude::*;

verus! {

/// Unique order identifier.
pub type OrderId = u64;

/// Order side.
#[derive(Clone, Copy, Debug, PartialEq, Eq, Structural)]
pub enum Side {
    /// Buy side.
    Bid,
    /// Sell side.
    Ask,
}

/// Order lifecycle status.
#[derive(Clone, Copy, Debug, PartialEq, Eq, Structural)]
pub enum OrderStatus {
    /// Order is resting in the book.
    Open,
    /// Order is partially filled.
    PartiallyFilled,
    /// Order is fully filled.
    Filled,
    /// Order was cancelled.
    Cancelled,
}

/// A limit order resting in the book.
#[derive(Clone, Debug)]
pub struct LimitOrder {
    /// Unique order ID.
    pub id: OrderId,
    /// Order side (bid or ask).
    pub side: Side,
    /// Limit price, in units of price.
    pub price: i128,
    /// Original order quantity, in units of quantity.
    pub qty: i128,
    /// Remaining unfilled quantity, in units of quantity.
    pub remaining_qty: i128,
    /// Current order status.
    pub status: OrderStatus,
    /// Submission timestamp in milliseconds.
    pub timestamp_ms: u64,
    /// Trader identifier.
    pub trader_id: String,
}

/// A single trade execution record.
#[derive(Clone, Copy, Debug, PartialEq, Eq, Structural)]
pub struct Trade {
    /// ID of the aggressor (incoming) order.
    pub aggressor_id: OrderId,
    /// ID of the resting (passive) order.
    pub resting_id: OrderId,
    /// Execution price, in units of price.
    pub price: i128,
    /// Executed quantity, in units of quantity.
    pub qty: i128,
    /// Execution timestamp in milliseconds.
    pub timestamp_ms: u64,
}

/// The resting orders at one price.
#[derive(Debug)]
pub struct Level {
    /// The key of the price: smaller keys are better prices.
    pub key: u64,
    /// The orders, oldest first.
    pub queue: VecDeque<LimitOrder>,
}

/// A level as its key and its orders.
pub type PriceLevel = (u64, Seq<LimitOrder>);

impl View for Level {
    type V = PriceLevel;

    open spec fn view(&self) -> PriceLevel {
        (self.key, self.queue@)
    }
}

/// A side of the book.
pub open spec fn side_view(levels: Seq<Level>) -> Seq<PriceLevel> {
    levels.map_values(|l: Level| l@)
}

/// Units of price in one price step of the book.
pub const STEP: i128 = 10_000;

/// The whole price steps in a price, within the range of a key.
pub open spec fn step_of(price: int) -> int {
    let steps = price / 10_000;
    if steps < 0 {
        0
    } else if steps > u64::MAX {
        u64::MAX as int
    } else {
        steps
    }
}

/// The key of a price: on the bid side higher prices have smaller keys, on the
/// ask side lower prices.
pub open spec fn key_of(price: int, side: Side) -> int {
    match side {
        Side::Bid => u64::MAX - step_of(price),
        Side::Ask => step_of(price),
    }
}

/// The price of a level, in units of price.
pub open spec fn level_price(key: u64, side: Side) -> int {
    match side {
        Side::Bid => (u64::MAX - key) * 10_000,
        Side::Ask => key * 10_000,
    }
}

/// Whether an order can trade with a level of the other side.
pub open spec fn crosses(side: Side, price: int, key: u64) -> bool {
    match side {
        Side::Bid => level_price(key, Side::Ask) <= price,
        Side::Ask => level_price(key, Side::Bid) >= price,
    }
}

/// The other side.
pub open spec fn opposite(side: Side) -> Side {
    match side {
        Side::Bid => Side::Ask,
        Side::Ask => Side::Bid,
    }
}

/// The price of a market order: it crosses every level.
pub open spec fn market_price(side: Side) -> int {
    match side {
        Side::Bid => i128::MAX as int,
        Side::Ask => 0,
    }
}

/// Prices and quantities as integers.
pub open spec fn pairs_view(pairs: Seq<(i128, Integer)>) -> Seq<(int, int)> {
    pairs.map_values(|p: (i128, Integer)| (p.0 as int, p.1@))
}

/// The smaller of two quantities.
pub open spec fn lesser(a: int, b: int) -> int {
    if a <= b {
        a
    } else {
        b
    }
}

/// An order after `qty` of it was filled.
pub open spec fn filled_by(o: LimitOrder, qty: int) -> LimitOrder {
    LimitOrder {
        remaining_qty: (o.remaining_qty - qty) as i128,
        status: if o.remaining_qty - qty <= 0 {
            OrderStatus::Filled
        } else {
            OrderStatus::PartiallyFilled
        },
        ..o
    }
}

/// The trade of `qty` between an incoming and a resting order, at the price of
/// the resting one.
pub open spec fn trade_of(id: OrderId, o: LimitOrder, qty: int, now_ms: u64) -> Trade {
    Trade { aggressor_id: id, resting_id: o.id, price: o.price, qty: qty as i128, timestamp_ms: now_ms }
}

/// What matching leaves: resting orders, the quantity still wanted, and the
/// trades made, in order.
pub struct Matched<T> {
    /// What still rests.
    pub resting: Seq<T>,
    /// The quantity still wanted.
    pub wanted: int,
    /// The trades made.
    pub trades: Seq<Trade>,
}

/// Matching `wanted` against a queue: the oldest order first, each as far as it
/// goes.
pub open spec fn match_queue(
    queue: Seq<LimitOrder>,
    wanted: int,
    id: OrderId,
    now_ms: u64,
) -> Matched<LimitOrder>
    decreases queue.len(),
{
    if wanted <= 0 || queue.len() == 0 {
        Matched { resting: queue, wanted, trades: Seq::empty() }
    } else {
        let o = queue[0];
        let fill = lesser(wanted, o.remaining_qty as int);
        let trade = trade_of(id, o, fill, now_ms);
        if o.remaining_qty <= fill {
            let rest = match_queue(queue.skip(1), wanted - fill, id, now_ms);
            Matched { trades: seq![trade] + rest.trades, ..rest }
        } else {
            Matched {
                resting: seq![filled_by(o, fill)] + queue.skip(1),
                wanted: wanted - fill,
                trades: seq![trade],
            }
        }
    }
}

/// Matching `wanted` against a side of the book: the best level first, as long
/// as levels cross the price.
pub open spec fn match_levels(
    levels: Seq<PriceLevel>,
    side: Side,
    price: int,
    wanted: int,
    id: OrderId,
    now_ms: u64,
) -> Matched<PriceLevel>
    decreases levels.len(),
{
    if wanted <= 0 || levels.len() == 0 || !crosses(side, price, levels[0].0) {
        Matched { resting: levels, wanted, trades: Seq::empty() }
    } else {
        let first = match_queue(levels[0].1, wanted, id, now_ms);
        if first.resting.len() == 0 {
            let rest = match_levels(levels.skip(1), side, price, first.wanted, id, now_ms);
            Matched { trades: first.trades + rest.trades, ..rest }
        } else {
            Matched {
                resting: seq![(levels[0].0, first.resting)] + levels.skip(1),
                wanted: first.wanted,
                trades: first.trades,
            }
        }
    }
}

/// The status of an incoming order of `qty` with `remaining` left.
pub open spec fn status_after(qty: int, remaining: int) -> OrderStatus {
    if remaining <= 0 {
        OrderStatus::Filled
    } else if remaining < qty {
        OrderStatus::PartiallyFilled
    } else {
        OrderStatus::Open
    }
}

/// The first level at or behind a key.
pub open spec fn place_of(levels: Seq<PriceLevel>, key: u64) -> int
    decreases levels.len(),
{
    if levels.len() == 0 || levels[0].0 >= key {
        0
    } else {
        1 + place_of(levels.skip(1), key)
    }
}

/// A side of the book with one more order, behind the orders at its price.
pub open spec fn with_order(levels: Seq<PriceLevel>, key: u64, o: LimitOrder) -> Seq<PriceLevel> {
    let at = place_of(levels, key);
    if at < levels.len() && levels[at].0 == key {
        levels.update(at, (key, levels[at].1.push(o)))
    } else {
        levels.insert(at, (key, seq![o]))
    }
}

/// A side of the book without its first order.
pub open spec fn without_first(levels: Seq<PriceLevel>) -> Seq<PriceLevel> {
    if levels[0].1.len() <= 1 {
        levels.skip(1)
    } else {
        levels.update(0, (levels[0].0, levels[0].1.skip(1)))
    }
}

/// A side of the book with its first order after `qty` of it was filled: gone
/// where nothing of it remains.
pub open spec fn first_filled(levels: Seq<PriceLevel>, qty: int) -> Seq<PriceLevel> {
    let o = levels[0].1[0];
    if o.remaining_qty <= qty {
        without_first(levels)
    } else {
        levels.update(0, (levels[0].0, levels[0].1.update(0, filled_by(o, qty))))
    }
}

/// The orders on a side of the book, in the order in which they are matched.
pub open spec fn side_orders(levels: Seq<PriceLevel>) -> Seq<LimitOrder>
    decreases levels.len(),
{
    if levels.len() == 0 {
        Seq::empty()
    } else {
        levels[0].1 + side_orders(levels.skip(1))
    }
}

/// The number of orders on a side of the book.
pub open spec fn order_count(levels: Seq<PriceLevel>) -> nat
    decreases levels.len(),
{
    if levels.len() == 0 {
        0
    } else {
        levels[0].1.len() + order_count(levels.skip(1))
    }
}

/// Whether the best bid reaches the best ask.
pub open spec fn is_crossed(bids: Seq<PriceLevel>, asks: Seq<PriceLevel>) -> bool {
    &&& bids.len() > 0
    &&& asks.len() > 0
    &&& level_price(bids[0].0, Side::Bid) >= level_price(asks[0].0, Side::Ask)
}

/// What the matching engine leaves: both sides of the book and the trades made,
/// in order.
pub struct Settled {
    /// The bid side.
    pub bids: Seq<PriceLevel>,
    /// The ask side.
    pub asks: Seq<PriceLevel>,
    /// The trades made.
    pub trades: Seq<Trade>,
}

/// The matching engine: as long as the book is crossed, the first bid takes
/// what it can of the first ask, at the price of the ask.
pub open spec fn settle(
    bids: Seq<PriceLevel>,
    asks: Seq<PriceLevel>,
    now_ms: u64,
) -> Settled
    decreases order_count(bids) + order_count(asks),
{
    if !is_crossed(bids, asks) || bids[0].1.len() == 0 || asks[0].1.len() == 0 {
        Settled { bids, asks, trades: Seq::empty() }
    } else {
        let bid = bids[0].1[0];
        let ask = asks[0].1[0];
        let fill = lesser(bid.remaining_qty as int, ask.remaining_qty as int);
        proof {
            lemma_first_filled_count(bids, fill);
            lemma_first_filled_count(asks, fill);
        }
        let rest = settle(first_filled(bids, fill), first_filled(asks, fill), now_ms);
        Settled { trades: seq![trade_of(bid.id, ask, fill, now_ms)] + rest.trades, ..rest }
    }
}

/// The position in a queue of the first order with an ID; the length of the
/// queue where there is none.
pub open spec fn position_of(queue: Seq<LimitOrder>, id: OrderId) -> int
    decreases queue.len(),
{
    if queue.len() == 0 || queue[0].id == id {
        0
    } else {
        1 + position_of(queue.skip(1), id)
    }
}

/// A side of the book without the first order with an ID; `None` where there
/// is no such order.
pub open spec fn without_order(levels: Seq<PriceLevel>, id: OrderId) -> Option<Seq<PriceLevel>>
    decreases levels.len(),
{
    if levels.len() == 0 {
        None
    } else {
        let at = position_of(levels[0].1, id);
        if at < levels[0].1.len() {
            let rest = levels[0].1.remove(at);
            if rest.len() == 0 {
                Some(levels.skip(1))
            } else {
                Some(levels.update(0, (levels[0].0, rest)))
            }
        } else {
            match without_order(levels.skip(1), id) {
                Some(rest) => Some(seq![levels[0]] + rest),
                None => None,
            }
        }
    }
}

/// The quantity that remains of a queue of orders.
pub open spec fn queue_qty(queue: Seq<LimitOrder>) -> int
    decreases queue.len(),
{
    if queue.len() == 0 {
        0
    } else {
        queue_qty(queue.drop_last()) + queue.last().remaining_qty
    }
}

/// The best levels of a side, each as its price and the quantity that remains
/// there.
pub open spec fn depth_of(levels: Seq<PriceLevel>, side: Side, depth: int) -> Seq<(int, int)> {
    Seq::new(
        lesser(depth, levels.len() as int) as nat,
        |i: int| (level_price(levels[i].0, side), queue_qty(levels[i].1)),
    )
}

/// A resting order as it stands at a key of its side.
pub open spec fn order_wf(o: LimitOrder, key: u64, side: Side, next_id: u64) -> bool {
    &&& o.side == side
    &&& o.remaining_qty > 0
    &&& o.id < next_id
    &&& key == key_of(o.price as int, side)
    &&& o.status == OrderStatus::Open || o.status == OrderStatus::PartiallyFilled
}

/// Whether the orders of a queue stand in the order in which they came: each
/// got a later ID than those before it.
pub open spec fn oldest_first(queue: Seq<LimitOrder>) -> bool {
    forall|j: int, k: int| 0 <= j < k < queue.len() ==> queue[j].id < queue[k].id
}

/// A well-formed side of the book: best prices first, no level twice, no level
/// empty, at each level the oldest order first, and every order with something
/// left to fill.
pub open spec fn side_wf(levels: Seq<PriceLevel>, side: Side, next_id: u64) -> bool {
    &&& forall|i: int, j: int| 0 <= i < j < levels.len() ==> levels[i].0 < levels[j].0
    &&& forall|i: int|
        0 <= i < levels.len() ==> (#[trigger] levels[i]).1.len() > 0 && oldest_first(levels[i].1)
    &&& forall|i: int, j: int|
        0 <= i < levels.len() && 0 <= j < levels[i].1.len() ==> order_wf(
            #[trigger] levels[i].1[j],
            levels[i].0,
            side,
            next_id,
        )
}

/// The IDs of orders.
pub open spec fn ids_of(orders: Seq<LimitOrder>) -> Seq<OrderId> {
    orders.map_values(|o: LimitOrder| o.id)
}

/// Whether no ID occurs twice on a side of the book.
pub open spec fn distinct_ids(levels: Seq<PriceLevel>) -> bool {
    ids_of(side_orders(levels)).no_duplicates()
}

/// Whether every order on a side has something left to fill.
pub open spec fn all_open(levels: Seq<PriceLevel>) -> bool {
    forall|i: int, j: int|
        0 <= i < levels.len() && 0 <= j < levels[i].1.len() ==> (
        #[trigger] levels[i].1[j]).remaining_qty > 0
}

/// Whether the matching engine can work through a side: no level is empty, and
/// every order has something left to fill.
pub open spec fn can_be_matched(levels: Seq<PriceLevel>) -> bool {
    &&& forall|i: int| 0 <= i < levels.len() ==> (#[trigger] levels[i]).1.len() > 0
    &&& all_open(levels)
}

/// Limit order book simulator with price-time priority matching.
#[derive(Debug)]
pub struct OrderBookSim {
    /// Bid side, best price first.
    pub bids: Vec<Level>,
    /// Ask side, best price first.
    pub asks: Vec<Level>,
    /// Next order ID to assign.
    pub next_id: u64,
    /// Symbol this book tracks.
    pub symbol: String,
    /// All trades executed so far.
    pub trades: Vec<Trade>,
}

/// Convert a price to the key of its level.
///
/// Bids use `u64::MAX - steps` so that higher prices sort first. Asks use
/// `steps` so that lower prices sort first. `steps` are the whole steps of the
/// book in the price, within the range of a key.
pub fn price_to_key(price: i128, side: Side) -> (r: u64)
    ensures
        r == key_of(price as int, side),
        0 <= price <= u64::MAX * 10_000 ==> r == match side {
            Side::Bid => u64::MAX - price / 10_000,
            Side::Ask => price as int / 10_000,
        },
{
    let steps: u64 = if price < 0 {
        0
    } else {
        let steps: i128 = price / STEP;
        if steps > u64::MAX as i128 {
            u64::MAX
        } else {
            steps as u64
        }
    };
    match side {
        Side::Bid => u64::MAX - steps,
        Side::Ask => steps,
    }
}

/// Convert the key of a level back to a price.
fn key_to_price(key: u64, side: Side) -> (r: i128)
    ensures
        r == level_price(key, side),
{
    match side {
        Side::Bid => (u64::MAX - key) as i128 * STEP,
        Side::Ask => key as i128 * STEP,
    }
}

/// What submitting a limit order does to the book: the order trades with the
/// other side, and what is left of it rests on its own.
pub open spec fn limit_submitted(
    before: OrderBookSim,
    after: OrderBookSim,
    side: Side,
    price: int,
    qty: int,
    trader_id: Seq<char>,
    timestamp_ms: u64,
) -> bool {
    let id = before.next_id;
    let m = match_levels(before.side(opposite(side)), side, price, qty, id, timestamp_ms);
    &&& after.next_id == id + 1
    &&& after.symbol == before.symbol
    &&& after.trades@ == before.trades@ + m.trades
    &&& after.side(opposite(side)) == m.resting
    &&& m.wanted <= 0 ==> after.side(side) == before.side(side)
    &&& m.wanted > 0 ==> exists|o: LimitOrder|
        {
            &&& o.id == id
            &&& o.side == side
            &&& o.price == price
            &&& o.qty == qty
            &&& o.remaining_qty == m.wanted
            &&& o.status == status_after(qty, m.wanted)
            &&& o.timestamp_ms == timestamp_ms
            &&& o.trader_id@ == trader_id
            &&& after.side(side) == #[trigger] with_order(
                before.side(side),
                key_of(price, side) as u64,
                o,
            )
        }
}

/// What submitting a market order does to the book: the order trades with the
/// other side, and what is left of it goes.
pub open spec fn market_submitted(
    before: OrderBookSim,
    after: OrderBookSim,
    side: Side,
    qty: int,
    timestamp_ms: u64,
) -> bool {
    let m = match_levels(
        before.side(opposite(side)),
        side,
        market_price(side),
        qty,
        before.next_id,
        timestamp_ms,
    );
    &&& after.next_id == before.next_id + 1
    &&& after.symbol == before.symbol
    &&& after.trades@ == before.trades@ + m.trades
    &&& after.side(opposite(side)) == m.resting
    &&& after.side(side) == before.side(side)
}

/// What the matching engine does to the book.
pub open spec fn orders_matched(before: OrderBookSim, after: OrderBookSim, now_ms: u64) -> bool {
    let s = settle(before.bid_side(), before.ask_side(), now_ms);
    &&& after.next_id == before.next_id
    &&& after.symbol == before.symbol
    &&& after.trades@ == before.trades@ + s.trades
    &&& after.bid_side() == s.bids
    &&& after.ask_side() == s.asks
}

/// What cancelling an order does to the book: the first order of the side with
/// the ID goes, where there is one.
pub open spec fn order_cancelled(
    before: OrderBookSim,
    after: OrderBookSim,
    id: OrderId,
    side: Side,
) -> bool {
    &&& after.next_id == before.next_id
    &&& after.symbol == before.symbol
    &&& after.trades == before.trades
    &&& after.side(opposite(side)) == before.side(opposite(side))
    &&& after.side(side) == match without_order(before.side(side), id) {
        Some(rest) => rest,
        None => before.side(side),
    }
}

impl OrderBookSim {
    /// The bid side.
    pub open spec fn bid_side(self) -> Seq<PriceLevel> {
        side_view(self.bids@)
    }

    /// The ask side.
    pub open spec fn ask_side(self) -> Seq<PriceLevel> {
        side_view(self.asks@)
    }

    /// A side of the book.
    pub open spec fn side(self, side: Side) -> Seq<PriceLevel> {
        match side {
            Side::Bid => self.bid_side(),
            Side::Ask => self.ask_side(),
        }
    }

    /// Whether both sides of the book are well-formed.
    pub open spec fn wf(self) -> bool {
        &&& side_wf(self.bid_side(), Side::Bid, self.next_id)
        &&& side_wf(self.ask_side(), Side::Ask, self.next_id)
        &&& distinct_ids(self.bid_side())
        &&& distinct_ids(self.ask_side())
    }

    /// Create a new empty order book for the given symbol.
    pub fn new(symbol: &str) -> (r: OrderBookSim)
        ensures
            r.wf(),
            r.bid_side() == Seq::<PriceLevel>::empty(),
            r.ask_side() == Seq::<PriceLevel>::empty(),
            r.next_id == 1,
            r.symbol@ == symbol@,
            r.trades@ == Seq::<Trade>::empty(),
    {
        let r = OrderBookSim {
            bids: Vec::new(),
            asks: Vec::new(),
            next_id: 1,
            symbol: symbol.to_owned(),
            trades: Vec::new(),
        };
        assert(r.bid_side() =~= Seq::<PriceLevel>::empty());
        assert(r.ask_side() =~= Seq::<PriceLevel>::empty());
        r
    }

    /// Submit a limit order. Attempts to match immediately; remainder rests in book.
    ///
    /// Returns the assigned order ID.
    pub fn submit_limit(
        &mut self,
        side: Side,
        price: i128,
        qty: i128,
        trader_id: &str,
        timestamp_ms: u64,
    ) -> (r: OrderId)
        requires
            old(self).wf(),
            old(self).next_id < u64::MAX,
        ensures
            r == old(self).next_id,
            final(self).wf(),
            limit_submitted(
                *old(self),
                *final(self),
                side,
                price as int,
                qty as int,
                trader_id@,
                timestamp_ms,
            ),
    {
        let id: OrderId = self.next_id;
        self.next_id = id + 1;
        let mut order = LimitOrder {
            id,
            side,
            price,
            qty,
            remaining_qty: qty,
            status: OrderStatus::Open,
            timestamp_ms,
            trader_id: trader_id.to_owned(),
        };
        let ghost own = old(self).side(side);
        let ghost other = old(self).side(opposite(side));
        let ghost m = match_levels(other, side, price as int, qty as int, id, timestamp_ms);
        proof {
            lemma_wf_open(other, opposite(side), id);
        }
        let mut made = match side {
            Side::Bid => Self::match_incoming(&mut order, &mut self.asks, timestamp_ms),
            Side::Ask => Self::match_incoming(&mut order, &mut self.bids, timestamp_ms),
        };
        self.trades.append(&mut made);
        // If not fully filled, rest in book
        if order.remaining_qty > 0 {
            let key: u64 = price_to_key(price, side);
            let ghost resting = order;
            match side {
                Side::Bid => Self::rest_order(&mut self.bids, key, order),
                Side::Ask => Self::rest_order(&mut self.asks, key, order),
            }
            assert(key == key_of(price as int, side) as u64);
            assert(resting.status == status_after(qty as int, m.wanted));
            assert(self.side(side) == with_order(own, key_of(price as int, side) as u64, resting));
        }
        proof {
            lemma_limit_submitted_wf(
                *old(self),
                *self,
                side,
                price as int,
                qty as int,
                trader_id@,
                timestamp_ms,
            );
        }
        id
    }

    /// Submit a market order. Matches against the best available prices.
    ///
    /// Returns all trades generated.
    pub fn submit_market(
        &mut self,
        side: Side,
        qty: i128,
        trader_id: &str,
        timestamp_ms: u64,
    ) -> (r: Vec<Trade>)
        requires
            old(self).wf(),
            old(self).next_id < u64::MAX,
        ensures
            final(self).wf(),
            market_submitted(*old(self), *final(self), side, qty as int, timestamp_ms),
            final(self).trades@ == old(self).trades@ + r@,
            r@ == match_levels(
                old(self).side(opposite(side)),
                side,
                market_price(side),
                qty as int,
                old(self).next_id,
                timestamp_ms,
            ).trades,
    {
        let id: OrderId = self.next_id;
        self.next_id = id + 1;
        let mut order = LimitOrder {
            id,
            side,
            price: match side {
                Side::Bid => i128::MAX,
                Side::Ask => 0,
            },
            qty,
            remaining_qty: qty,
            status: OrderStatus::Open,
            timestamp_ms,
            trader_id: trader_id.to_owned(),
        };
        let ghost own = old(self).side(side);
        let ghost other = old(self).side(opposite(side));
        proof {
            lemma_wf_open(other, opposite(side), id);
        }
        let made = match side {
            Side::Bid => Self::match_incoming(&mut order, &mut self.asks, timestamp_ms),
            Side::Ask => Self::match_incoming(&mut order, &mut self.bids, timestamp_ms),
        };
        let ghost before = self.trades@;
        let mut i: usize = 0;
        while i < made.len()
            invariant
                i <= made.len(),
                self.trades@ == before + made@.take(i as int),
                self.bids == old(self).bids || side == Side::Ask,
                self.next_id == old(self).next_id + 1,
                self.symbol == old(self).symbol,
                self.side(side) == own,
                self.side(opposite(side)) == match_levels(
                    other,
                    side,
                    market_price(side),
                    qty as int,
                    id,
                    timestamp_ms,
                ).resting,
            decreases made.len() - i,
        {
            self.trades.push(made[i]);
            i += 1;
            assert(self.trades@ =~= before + made@.take(i as int));
        }
        assert(made@.take(i as int) =~= made@);
        proof {
            lemma_market_submitted_wf(*old(self), *self, side, qty as int, timestamp_ms);
        }
        made
    }

    /// Run the matching engine: check if best bid >= best ask and match.
    ///
    /// Returns all trades generated in this matching cycle.
    pub fn match_orders(&mut self, now_ms: u64) -> (r: Vec<Trade>)
        requires
            can_be_matched(old(self).bid_side()),
            can_be_matched(old(self).ask_side()),
        ensures
            old(self).wf() ==> final(self).wf(),
            orders_matched(*old(self), *final(self), now_ms),
            final(self).trades@ == old(self).trades@ + r@,
            r@ == settle(old(self).bid_side(), old(self).ask_side(), now_ms).trades,
            !is_crossed(final(self).bid_side(), final(self).ask_side()),
    {
        let ghost all = settle(self.bid_side(), self.ask_side(), now_ms);
        let ghost before = self.trades@;
        let mut trades: Vec<Trade> = Vec::new();
        while self.bids.len() > 0 && self.asks.len() > 0 && key_to_price(
            self.bids[0].key,
            Side::Bid,
        ) >= key_to_price(self.asks[0].key, Side::Ask)
            invariant
                can_be_matched(self.bid_side()),
                can_be_matched(self.ask_side()),
                self.next_id == old(self).next_id,
                self.symbol == old(self).symbol,
                ({
                    let rest = settle(self.bid_side(), self.ask_side(), now_ms);
                    &&& all.bids == rest.bids
                    &&& all.asks == rest.asks
                    &&& all.trades == trades@ + rest.trades
                }),
                self.trades@ == before + trades@,
            decreases order_count(self.bid_side()) + order_count(self.ask_side()),
        {
            let ghost bids = self.bid_side();
            let ghost asks = self.ask_side();
            let ghost rest = settle(bids, asks, now_ms);
            let ghost made = trades@;
            assert(bids[0] == self.bids@[0]@);
            assert(asks[0] == self.asks@[0]@);
            assert(bids[0].1[0].remaining_qty > 0 && asks[0].1[0].remaining_qty > 0);
            let bid = &self.bids[0].queue[0];
            let ask = &self.asks[0].queue[0];
            let fill: i128 = if bid.remaining_qty <= ask.remaining_qty {
                bid.remaining_qty
            } else {
                ask.remaining_qty
            };
            let trade = Trade {
                aggressor_id: bid.id,
                resting_id: ask.id,
                price: ask.price,
                qty: fill,
                timestamp_ms: now_ms,
            };
            trades.push(trade);
            self.trades.push(trade);
            proof {
                lemma_first_filled_count(bids, fill as int);
                lemma_first_filled_count(asks, fill as int);
                lemma_first_filled_can_be_matched(bids, fill as int);
                lemma_first_filled_can_be_matched(asks, fill as int);
            }
            Self::fill_first(&mut self.bids, fill);
            Self::fill_first(&mut self.asks, fill);
            assert(rest.trades =~= seq![trade] + settle(
                self.bid_side(),
                self.ask_side(),
                now_ms,
            ).trades);
            assert(made + rest.trades =~= trades@ + settle(
                self.bid_side(),
                self.ask_side(),
                now_ms,
            ).trades);
            assert(self.trades@ =~= before + trades@);
        }
        assert(all.trades =~= trades@);
        proof {
            if old(self).wf() {
                lemma_settle_wf(
                    old(self).bid_side(),
                    old(self).ask_side(),
                    now_ms,
                    self.next_id,
                );
            }
        }
        trades
    }

    /// Cancel an order by ID and side. Returns true if the order was found and removed.
    pub fn cancel_order(&mut self, id: OrderId, side: Side) -> (r: bool)
        ensures
            old(self).wf() ==> final(self).wf(),
            order_cancelled(*old(self), *final(self), id, side),
            r == (without_order(old(self).side(side), id) is Some),
    {
        let found = match side {
            Side::Bid => Self::remove_order(&mut self.bids, id),
            Side::Ask => Self::remove_order(&mut self.asks, id),
        };
        proof {
            if old(self).wf() {
                lemma_order_cancelled_wf(*old(self), *self, id, side);
            }
        }
        found
    }

    /// Best bid price, if any orders exist on the bid side.
    pub fn best_bid(&self) -> (r: Option<i128>)
        ensures
            match r {
                Some(p) => self.bid_side().len() > 0 && p == level_price(
                    self.bid_side()[0].0,
                    Side::Bid,
                ),
                None => self.bid_side().len() == 0,
            },
            r is Some ==> r->0 == (u64::MAX - self.bids@[0].key) * 10_000,
    {
        if self.bids.len() == 0 {
            None
        } else {
            Some(key_to_price(self.bids[0].key, Side::Bid))
        }
    }

    /// Best ask price, if any orders exist on the ask side.
    pub fn best_ask(&self) -> (r: Option<i128>)
        ensures
            match r {
                Some(p) => self.ask_side().len() > 0 && p == level_price(
                    self.ask_side()[0].0,
                    Side::Ask,
                ),
                None => self.ask_side().len() == 0,
            },
            r is Some ==> r->0 == self.asks@[0].key * 10_000,
    {
        if self.asks.len() == 0 {
            None
        } else {
            Some(key_to_price(self.asks[0].key, Side::Ask))
        }
    }

    /// Bid-ask spread, if both sides have at least one order.
    pub fn spread(&self) -> (r: Option<i128>)
        ensures
            match r {
                Some(d) => self.bid_side().len() > 0 && self.ask_side().len() > 0 && d
                    == level_price(self.ask_side()[0].0, Side::Ask) - level_price(
                    self.bid_side()[0].0,
                    Side::Bid,
                ),
                None => self.bid_side().len() == 0 || self.ask_side().len() == 0,
            },
            r is Some ==> r->0 == self.asks@[0].key * 10_000 - (u64::MAX - self.bids@[0].key)
                * 10_000,
    {
        match (self.best_bid(), self.best_ask()) {
            (Some(b), Some(a)) => Some(a - b),
            _ => None,
        }
    }

    /// Snapshot of the order book at a given depth.
    ///
    /// Returns `(bids, asks)` where each is a vec of `(price, total_qty)` at that level.
    /// The total of a level may take more than 128 bits.
    pub fn order_book_snapshot(&self, depth: usize) -> (r: (
        Vec<(i128, Integer)>,
        Vec<(i128, Integer)>,
    ))
        ensures
            pairs_view(r.0@) == depth_of(self.bid_side(), Side::Bid, depth as int),
            pairs_view(r.1@) == depth_of(self.ask_side(), Side::Ask, depth as int),
    {
        (
            Self::side_snapshot(&self.bids, Side::Bid, depth),
            Self::side_snapshot(&self.asks, Side::Ask, depth),
        )
    }

    /// The best levels of one side.
    fn side_snapshot(levels: &Vec<Level>, side: Side, depth: usize) -> (r: Vec<(i128, Integer)>)
        ensures
            pairs_view(r@) == depth_of(side_view(levels@), side, depth as int),
    {
        let n: usize = if depth < levels.len() {
            depth
        } else {
            levels.len()
        };
        let ghost want = depth_of(side_view(levels@), side, depth as int);
        let mut out: Vec<(i128, Integer)> = Vec::new();
        let mut i: usize = 0;
        while i < n
            invariant
                i <= n <= levels.len(),
                want == depth_of(side_view(levels@), side, depth as int),
                want.len() == n,
                pairs_view(out@) == want.take(i as int),
            decreases n - i,
        {
            assert(side_view(levels@)[i as int] == levels@[i as int]@);
            let total = Self::queue_total(&levels[i].queue);
            let ghost before = out@;
            out.push((key_to_price(levels[i].key, side), total));
            assert(want[i as int] == (
                level_price(levels@[i as int].key, side),
                queue_qty(levels@[i as int].queue@),
            ));
            assert(pairs_view(out@) =~= pairs_view(before).push(want[i as int]));
            i += 1;
            assert(pairs_view(out@) =~= want.take(i as int));
        }
        assert(want.take(n as int) =~= want);
        out
    }

    /// The quantity that remains of a queue of orders.
    fn queue_total(queue: &VecDeque<LimitOrder>) -> (r: Integer)
        ensures
            r@ == queue_qty(queue@),
    {
        let mut total = Integer::new(0);
        let mut i: usize = 0;
        assert(queue@.take(0) =~= Seq::<LimitOrder>::empty());
        while i < queue.len()
            invariant
                i <= queue@.len(),
                total@ == queue_qty(queue@.take(i as int)),
            decreases queue@.len() - i,
        {
            assert(queue@.take(i + 1).drop_last() =~= queue@.take(i as int));
            total = total.plus(&Integer::new(queue[i].remaining_qty));
            i += 1;
        }
        assert(queue@.take(i as int) =~= queue@);
        total
    }

    /// Puts an order behind the orders at its price.
    fn rest_order(levels: &mut Vec<Level>, key: u64, order: LimitOrder)
        ensures
            side_view(final(levels)@) == with_order(side_view(old(levels)@), key, order),
    {
        let ghost before = side_view(levels@);
        let mut at: usize = 0;
        assert(before.skip(0) =~= before);
        while at < levels.len() && levels[at].key < key
            invariant
                at <= levels.len(),
                before == side_view(levels@),
                place_of(before, key) == at + place_of(before.skip(at as int), key),
            decreases levels.len() - at,
        {
            assert(before.skip(at as int)[0] == levels@[at as int]@);
            assert(before.skip(at as int).skip(1) =~= before.skip(at + 1));
            at += 1;
        }
        assert(at < levels.len() ==> before.skip(at as int)[0] == levels@[at as int]@);
        assert(place_of(before, key) == at);
        if at < levels.len() && levels[at].key == key {
            let mut level = levels.remove(at);
            level.queue.push_back(order);
            levels.insert(at, level);
        } else {
            let mut queue: VecDeque<LimitOrder> = VecDeque::new();
            queue.push_back(order);
            assert(queue@ =~= seq![order]);
            levels.insert(at, Level { key, queue });
        }
        assert(side_view(levels@) =~= with_order(before, key, order));
    }

    /// Fills `qty` of the first order of a side, and takes it out where nothing
    /// of it remains.
    fn fill_first(levels: &mut Vec<Level>, qty: i128)
        requires
            old(levels)@.len() > 0,
            old(levels)@[0].queue@.len() > 0,
            0 <= qty <= old(levels)@[0].queue@[0].remaining_qty,
        ensures
            side_view(final(levels)@) == first_filled(side_view(old(levels)@), qty as int),
    {
        let ghost before = side_view(levels@);
        let mut level = levels.remove(0);
        assert(before[0] == level@);
        let ghost queue = level.queue@;
        if let Some(mut o) = level.queue.pop_front() {
            o.remaining_qty = o.remaining_qty - qty;
            if o.remaining_qty > 0 {
                o.status = OrderStatus::PartiallyFilled;
                level.queue.push_front(o);
                assert(level.queue@ =~= queue.update(0, filled_by(queue[0], qty as int)));
            } else {
                assert(level.queue@ =~= queue.skip(1));
            }
        }
        if level.queue.len() > 0 {
            levels.insert(0, level);
        }
        assert(side_view(levels@) =~= first_filled(before, qty as int));
    }

    /// Takes the first order with an ID out of a side.
    fn remove_order(levels: &mut Vec<Level>, id: OrderId) -> (r: bool)
        ensures
            match without_order(side_view(old(levels)@), id) {
                Some(rest) => r && side_view(final(levels)@) == rest,
                None => !r && side_view(final(levels)@) == side_view(old(levels)@),
            },
    {
        let ghost before = side_view(levels@);
        let ghost whole = without_order(before, id);
        let mut i: usize = 0;
        assert(before.skip(0) =~= before);
        assert(before.take(0) =~= Seq::<PriceLevel>::empty());
        proof {
            if let Some(rest) = whole {
                assert(Seq::<PriceLevel>::empty() + rest =~= rest);
            }
        }
        while i < levels.len()
            invariant
                i <= levels.len(),
                levels@ == old(levels)@,
                before == side_view(levels@),
                whole == without_order(before, id),
                match without_order(before.skip(i as int), id) {
                    Some(rest) => whole == Some(before.take(i as int) + rest),
                    None => whole is None,
                },
            decreases levels.len() - i,
        {
            let ghost here = before.skip(i as int);
            assert(here[0] == levels@[i as int]@);
            assert(here.skip(1) =~= before.skip(i + 1));
            let at: usize = Self::find_order(&levels[i].queue, id);
            if at < levels[i].queue.len() {
                let mut level = levels.remove(i);
                let ghost queue = level.queue@;
                level.queue.remove(at);
                assert(level.queue@ =~= queue.remove(at as int));
                if level.queue.len() > 0 {
                    levels.insert(i, level);
                }
                assert(side_view(levels@) =~= whole->0);
                return true;
            }
            proof {
                if let Some(rest) = without_order(before.skip(i + 1), id) {
                    assert(before.take(i as int) + (seq![before[i as int]] + rest) =~= before.take(
                        i + 1,
                    ) + rest);
                }
            }
            i += 1;
        }
        false
    }

    /// The position of the first order with an ID.
    fn find_order(queue: &VecDeque<LimitOrder>, id: OrderId) -> (r: usize)
        ensures
            r == position_of(queue@, id),
            r <= queue@.len(),
    {
        let mut i: usize = 0;
        assert(queue@.skip(0) =~= queue@);
        while i < queue.len() && queue[i].id != id
            invariant
                i <= queue@.len(),
                position_of(queue@, id) == i + position_of(queue@.skip(i as int), id),
            decreases queue@.len() - i,
        {
            assert(queue@.skip(i as int).skip(1) =~= queue@.skip(i + 1));
            i += 1;
        }
        i
    }

    /// Attempt to match `order` against the orders of one level.
    fn match_level(order: &mut LimitOrder, queue: &mut VecDeque<LimitOrder>, now_ms: u64) -> (r: Vec<
        Trade,
    >)
        requires
            forall|i: int|
                0 <= i < old(queue)@.len() ==> (#[trigger] old(queue)@[i]).remaining_qty > 0,
        ensures
            ({
                let m = match_queue(old(queue)@, old(order).remaining_qty as int, old(order).id, now_ms);
                &&& final(queue)@ == m.resting
                &&& final(order).remaining_qty == m.wanted
                &&& r@ == m.trades
                &&& *final(order) == (LimitOrder {
                    remaining_qty: final(order).remaining_qty,
                    ..*old(order)
                })
            }),
    {
        let ghost all = match_queue(queue@, order.remaining_qty as int, order.id, now_ms);
        let mut trades: Vec<Trade> = Vec::new();
        while order.remaining_qty > 0 && queue.len() > 0
            invariant
                ({
                    let rest = match_queue(queue@, order.remaining_qty as int, order.id, now_ms);
                    &&& all.resting == rest.resting
                    &&& all.wanted == rest.wanted
                    &&& all.trades == trades@ + rest.trades
                }),
                forall|i: int| 0 <= i < queue@.len() ==> (#[trigger] queue@[i]).remaining_qty > 0,
                *order == (LimitOrder { remaining_qty: order.remaining_qty, ..*old(order) }),
            decreases (if order.remaining_qty > 0 { 1nat } else { 0nat }) + queue@.len(),
        {
            let ghost before = queue@;
            let ghost rest = match_queue(queue@, order.remaining_qty as int, order.id, now_ms);
            let ghost made = trades@;
            assert(queue@[0].remaining_qty > 0);
            let mut resting = match queue.pop_front() {
                Some(o) => o,
                None => {
                    return trades;
                },
            };
            assert(queue@ =~= before.skip(1));
            let fill: i128 = if order.remaining_qty <= resting.remaining_qty {
                order.remaining_qty
            } else {
                resting.remaining_qty
            };
            trades.push(
                Trade {
                    aggressor_id: order.id,
                    resting_id: resting.id,
                    price: resting.price,
                    qty: fill,
                    timestamp_ms: now_ms,
                },
            );
            order.remaining_qty = order.remaining_qty - fill;
            resting.remaining_qty = resting.remaining_qty - fill;
            if resting.remaining_qty > 0 {
                resting.status = OrderStatus::PartiallyFilled;
                queue.push_front(resting);
                assert(queue@ =~= rest.resting);
                assert(order.remaining_qty == 0);
            }
            proof {
                let after = match_queue(queue@, order.remaining_qty as int, order.id, now_ms);
                assert(rest.trades =~= seq![trades@.last()] + after.trades);
                assert(made + rest.trades =~= trades@ + after.trades);
            }
        }
        assert(all.trades =~= trades@);
        trades
    }

    /// Attempt to match `order` against the opposite side of the book.
    fn match_incoming(order: &mut LimitOrder, opposite: &mut Vec<Level>, now_ms: u64) -> (r: Vec<
        Trade,
    >)
        requires
            all_open(side_view(old(opposite)@)),
        ensures
            ({
                let m = match_levels(
                    side_view(old(opposite)@),
                    old(order).side,
                    old(order).price as int,
                    old(order).remaining_qty as int,
                    old(order).id,
                    now_ms,
                );
                &&& side_view(final(opposite)@) == m.resting
                &&& r@ == m.trades
                &&& final(order).remaining_qty == m.wanted
                &&& *final(order) == (LimitOrder {
                    remaining_qty: final(order).remaining_qty,
                    status: if m.wanted <= 0 {
                        OrderStatus::Filled
                    } else if m.wanted < old(order).qty {
                        OrderStatus::PartiallyFilled
                    } else {
                        old(order).status
                    },
                    ..*old(order)
                })
            }),
    {
        let ghost all = match_levels(
            side_view(opposite@),
            order.side,
            order.price as int,
            order.remaining_qty as int,
            order.id,
            now_ms,
        );
        let mut trades: Vec<Trade> = Vec::new();
        while order.remaining_qty > 0 && opposite.len() > 0 && Self::can_trade(
            order.side,
            order.price,
            opposite[0].key,
        )
            invariant
                ({
                    let rest = match_levels(
                        side_view(opposite@),
                        order.side,
                        order.price as int,
                        order.remaining_qty as int,
                        order.id,
                        now_ms,
                    );
                    &&& all.resting == rest.resting
                    &&& all.wanted == rest.wanted
                    &&& all.trades == trades@ + rest.trades
                }),
                all_open(side_view(opposite@)),
                *order == (LimitOrder { remaining_qty: order.remaining_qty, ..*old(order) }),
            decreases (if order.remaining_qty > 0 { 1nat } else { 0nat }) + opposite@.len(),
        {
            let ghost levels = side_view(opposite@);
            let ghost wanted = order.remaining_qty as int;
            let ghost made = trades@;
            let mut level = opposite.remove(0);
            assert(side_view(opposite@) =~= levels.skip(1));
            assert(levels[0] == level@);
            assert forall|i: int| 0 <= i < level.queue@.len() implies (
            #[trigger] level.queue@[i]).remaining_qty > 0 by {
                assert(levels[0].1[i].remaining_qty > 0);
            }
            let ghost first = match_queue(level.queue@, wanted, order.id, now_ms);
            proof {
                lemma_match_queue_rest(level.queue@, wanted, order.id, now_ms);
                assert forall|i: int, j: int|
                    0 <= i < levels.skip(1).len() && 0 <= j < levels.skip(1)[i].1.len() implies (
                #[trigger] levels.skip(1)[i].1[j]).remaining_qty > 0 by {
                    assert(levels[i + 1].1[j].remaining_qty > 0);
                }
            }
            let mut made_here = Self::match_level(order, &mut level.queue, now_ms);
            trades.append(&mut made_here);
            if level.queue.len() > 0 {
                let ghost kept = level@;
                opposite.insert(0, level);
                assert(side_view(opposite@) =~= seq![kept] + levels.skip(1));
                assert forall|i: int, j: int|
                    0 <= i < side_view(opposite@).len() && 0 <= j < side_view(
                        opposite@,
                    )[i].1.len() implies (
                #[trigger] side_view(opposite@)[i].1[j]).remaining_qty > 0 by {
                    if i > 0 {
                        assert(levels.skip(1)[i - 1].1[j].remaining_qty > 0);
                    } else {
                        assert(first.resting[j].remaining_qty > 0);
                    }
                }
                assert(all.trades =~= made + first.trades);
            } else {
                assert(all.trades =~= trades@ + match_levels(
                    levels.skip(1),
                    order.side,
                    order.price as int,
                    first.wanted,
                    order.id,
                    now_ms,
                ).trades);
            }
        }
        assert(all.trades =~= trades@);
        if order.remaining_qty <= 0 {
            order.status = OrderStatus::Filled;
        } else if order.remaining_qty < order.qty {
            order.status = OrderStatus::PartiallyFilled;
        }
        trades
    }

    /// Whether an order can trade with a level of the other side.
    fn can_trade(side: Side, price: i128, key: u64) -> (r: bool)
        ensures
            r == crosses(side, price as int, key),
    {
        match side {
            Side::Bid => key_to_price(key, Side::Ask) <= price,
            Side::Ask => key_to_price(key, Side::Bid) >= price,
        }
    }
}

/// Matching an order against the other side leaves both sides well-formed.
proof fn lemma_matched_wf(
    before: OrderBookSim,
    next_id: u64,
    side: Side,
    price: int,
    qty: int,
    timestamp_ms: u64,
)
    requires
        before.wf(),
        next_id == before.next_id + 1,
        qty <= i128::MAX,
    ensures
        side_wf(before.side(side), side, next_id),
        ({
            let m = match_levels(
                before.side(opposite(side)),
                side,
                price,
                qty,
                before.next_id,
                timestamp_ms,
            );
            &&& side_wf(m.resting, opposite(side), next_id)
            &&& distinct_ids(m.resting)
        }),
{
    let id = before.next_id;
    let own = before.side(side);
    let other = before.side(opposite(side));
    lemma_next_id(own, side, id, next_id);
    lemma_next_id(other, opposite(side), id, next_id);
    lemma_wf_open(other, opposite(side), next_id);
    lemma_match_levels_wf(other, side, price, qty, id, timestamp_ms, next_id);
    lemma_matched_ids(other, side, price, qty, id, timestamp_ms);
}

/// Submitting a limit order leaves a well-formed book well-formed.
pub(crate) proof fn lemma_limit_submitted_wf(
    before: OrderBookSim,
    after: OrderBookSim,
    side: Side,
    price: int,
    qty: int,
    trader_id: Seq<char>,
    timestamp_ms: u64,
)
    requires
        before.wf(),
        limit_submitted(before, after, side, price, qty, trader_id, timestamp_ms),
        qty <= i128::MAX,
    ensures
        after.wf(),
{
    let id = before.next_id;
    let own = before.side(side);
    let m = match_levels(before.side(opposite(side)), side, price, qty, id, timestamp_ms);
    lemma_matched_wf(before, after.next_id, side, price, qty, timestamp_ms);
    if m.wanted > 0 {
        let key = key_of(price, side) as u64;
        let o = choose|o: LimitOrder|
            {
                &&& o.id == id
                &&& o.side == side
                &&& o.price == price
                &&& o.qty == qty
                &&& o.remaining_qty == m.wanted
                &&& o.status == status_after(qty, m.wanted)
                &&& o.timestamp_ms == timestamp_ms
                &&& o.trader_id@ == trader_id
                &&& after.side(side) == #[trigger] with_order(own, key_of(price, side) as u64, o)
            };
        lemma_with_order_wf(own, key, o, side, after.next_id);
        lemma_new_id(own, key, o, side, id);
    }
}

/// Submitting a market order leaves a well-formed book well-formed.
pub(crate) proof fn lemma_market_submitted_wf(
    before: OrderBookSim,
    after: OrderBookSim,
    side: Side,
    qty: int,
    timestamp_ms: u64,
)
    requires
        before.wf(),
        market_submitted(before, after, side, qty, timestamp_ms),
        qty <= i128::MAX,
    ensures
        after.wf(),
{
    lemma_matched_wf(before, after.next_id, side, market_price(side), qty, timestamp_ms);
}

/// Cancelling an order leaves a well-formed book well-formed.
pub(crate) proof fn lemma_order_cancelled_wf(
    before: OrderBookSim,
    after: OrderBookSim,
    id: OrderId,
    side: Side,
)
    requires
        before.wf(),
        order_cancelled(before, after, id, side),
    ensures
        after.wf(),
        after.side(side).len() > 0 ==> before.side(side).len() > 0 && after.side(side)[0].0
            >= before.side(side)[0].0,
{
    lemma_without_order_wf(before.side(side), id, side, before.next_id);
    cancelled_order_is_gone(before.side(side), id);
}

/// The matching engine leaves a well-formed book well-formed, and not crossed.
pub(crate) proof fn lemma_settle_wf(
    bids: Seq<PriceLevel>,
    asks: Seq<PriceLevel>,
    now_ms: u64,
    next_id: u64,
)
    requires
        side_wf(bids, Side::Bid, next_id),
        side_wf(asks, Side::Ask, next_id),
        distinct_ids(bids),
        distinct_ids(asks),
    ensures
        ({
            let s = settle(bids, asks, now_ms);
            &&& side_wf(s.bids, Side::Bid, next_id)
            &&& side_wf(s.asks, Side::Ask, next_id)
            &&& distinct_ids(s.bids)
            &&& distinct_ids(s.asks)
            &&& !is_crossed(s.bids, s.asks)
        }),
    decreases order_count(bids) + order_count(asks),
{
    if is_crossed(bids, asks) {
        assert(bids[0].1.len() > 0 && asks[0].1.len() > 0);
        let bid = bids[0].1[0];
        let ask = asks[0].1[0];
        assert(order_wf(bid, bids[0].0, Side::Bid, next_id));
        assert(order_wf(ask, asks[0].0, Side::Ask, next_id));
        let fill = lesser(bid.remaining_qty as int, ask.remaining_qty as int);
        lemma_first_filled_count(bids, fill);
        lemma_first_filled_count(asks, fill);
        lemma_first_filled_wf(bids, fill, Side::Bid, next_id);
        lemma_first_filled_wf(asks, fill, Side::Ask, next_id);
        lemma_first_filled_ids(bids, fill);
        lemma_first_filled_ids(asks, fill);
        lemma_settle_wf(first_filled(bids, fill), first_filled(asks, fill), now_ms, next_id);
    }
}

/// What matching leaves of a queue is open, and something is left only where
/// nothing more is wanted.
proof fn lemma_match_queue_rest(queue: Seq<LimitOrder>, wanted: int, id: OrderId, now_ms: u64)
    requires
        forall|i: int| 0 <= i < queue.len() ==> (#[trigger] queue[i]).remaining_qty > 0,
        wanted <= i128::MAX,
    ensures
        ({
            let m = match_queue(queue, wanted, id, now_ms);
            &&& wanted > 0 && m.resting.len() > 0 ==> m.wanted == 0
            &&& wanted >= 0 ==> 0 <= m.wanted <= wanted
            &&& forall|i: int| 0 <= i < m.resting.len() ==> (#[trigger] m.resting[i]).remaining_qty > 0
        }),
    decreases queue.len(),
{
    if wanted > 0 && queue.len() > 0 {
        let o = queue[0];
        assert(o.remaining_qty > 0);
        let fill = lesser(wanted, o.remaining_qty as int);
        if o.remaining_qty <= fill {
            assert forall|i: int| 0 <= i < queue.skip(1).len() implies (
            #[trigger] queue.skip(1)[i]).remaining_qty > 0 by {
                assert(queue[i + 1].remaining_qty > 0);
            }
            lemma_match_queue_rest(queue.skip(1), wanted - fill, id, now_ms);
        } else {
            let m = match_queue(queue, wanted, id, now_ms);
            assert forall|i: int| 0 <= i < m.resting.len() implies (
            #[trigger] m.resting[i]).remaining_qty > 0 by {
                if i > 0 {
                    assert(queue[i].remaining_qty > 0);
                }
            }
        }
    }
}

/// A well-formed side stays so where later IDs are given out.
proof fn lemma_next_id(levels: Seq<PriceLevel>, side: Side, id: u64, later: u64)
    requires
        side_wf(levels, side, id),
        id <= later,
    ensures
        side_wf(levels, side, later),
{
    assert forall|i: int, j: int|
        0 <= i < levels.len() && 0 <= j < levels[i].1.len() implies order_wf(
        #[trigger] levels[i].1[j],
        levels[i].0,
        side,
        later,
    ) by {
        assert(order_wf(levels[i].1[j], levels[i].0, side, id));
    }
}

/// The orders of a well-formed side have something left to fill.
pub(crate) proof fn lemma_wf_open(levels: Seq<PriceLevel>, side: Side, next_id: u64)
    requires
        side_wf(levels, side, next_id),
    ensures
        all_open(levels),
{
    assert forall|i: int, j: int|
        0 <= i < levels.len() && 0 <= j < levels[i].1.len() implies (
    #[trigger] levels[i].1[j]).remaining_qty > 0 by {
        assert(order_wf(levels[i].1[j], levels[i].0, side, next_id));
    }
}

/// What is behind the first level of a well-formed side is well-formed.
proof fn lemma_skip_wf(levels: Seq<PriceLevel>, side: Side, next_id: u64)
    requires
        side_wf(levels, side, next_id),
        levels.len() > 0,
    ensures
        side_wf(levels.skip(1), side, next_id),
{
    let rest = levels.skip(1);
    assert forall|i: int| 0 <= i < rest.len() implies (#[trigger] rest[i]).1.len() > 0
        && oldest_first(rest[i].1) by {
        assert(levels[i + 1].1.len() > 0);
    }
    assert forall|i: int, j: int|
        0 <= i < rest.len() && 0 <= j < rest[i].1.len() implies order_wf(
        #[trigger] rest[i].1[j],
        rest[i].0,
        side,
        next_id,
    ) by {
        assert(order_wf(levels[i + 1].1[j], levels[i + 1].0, side, next_id));
    }
}

/// Putting other orders at the first price of a well-formed side keeps it so.
proof fn lemma_first_level_wf(
    levels: Seq<PriceLevel>,
    orders: Seq<LimitOrder>,
    side: Side,
    next_id: u64,
)
    requires
        side_wf(levels, side, next_id),
        levels.len() > 0,
        orders.len() > 0,
        oldest_first(orders),
        forall|j: int|
            0 <= j < orders.len() ==> order_wf(#[trigger] orders[j], levels[0].0, side, next_id),
    ensures
        side_wf(levels.update(0, (levels[0].0, orders)), side, next_id),
        levels.update(0, (levels[0].0, orders)) == seq![(levels[0].0, orders)] + levels.skip(1),
{
    let after = levels.update(0, (levels[0].0, orders));
    assert(after =~= seq![(levels[0].0, orders)] + levels.skip(1));
    assert forall|i: int| 0 <= i < after.len() implies (#[trigger] after[i]).1.len() > 0
        && oldest_first(after[i].1) by {
        assert(levels[i].1.len() > 0);
    }
    assert forall|i: int, j: int|
        0 <= i < after.len() && 0 <= j < after[i].1.len() implies order_wf(
        #[trigger] after[i].1[j],
        after[i].0,
        side,
        next_id,
    ) by {
        if i > 0 {
            assert(order_wf(levels[i].1[j], levels[i].0, side, next_id));
        } else {
            assert(order_wf(orders[j], levels[0].0, side, next_id));
        }
    }
}

/// What matching leaves of well-formed orders at a price is well-formed.
proof fn lemma_match_queue_wf(
    queue: Seq<LimitOrder>,
    wanted: int,
    id: OrderId,
    now_ms: u64,
    key: u64,
    side: Side,
    next_id: u64,
)
    requires
        oldest_first(queue),
        forall|j: int| 0 <= j < queue.len() ==> order_wf(#[trigger] queue[j], key, side, next_id),
    ensures
        ({
            let m = match_queue(queue, wanted, id, now_ms);
            &&& oldest_first(m.resting)
            &&& forall|j: int|
                0 <= j < m.resting.len() ==> order_wf(#[trigger] m.resting[j], key, side, next_id)
        }),
    decreases queue.len(),
{
    if wanted > 0 && queue.len() > 0 {
        let o = queue[0];
        assert(order_wf(o, key, side, next_id));
        let fill = lesser(wanted, o.remaining_qty as int);
        let rest = queue.skip(1);
        assert forall|j: int| 0 <= j < rest.len() implies order_wf(
            #[trigger] rest[j],
            key,
            side,
            next_id,
        ) by {
            assert(order_wf(queue[j + 1], key, side, next_id));
        }
        let m = match_queue(queue, wanted, id, now_ms);
        if o.remaining_qty <= fill {
            lemma_match_queue_wf(rest, wanted - fill, id, now_ms, key, side, next_id);
            assert(m.resting == match_queue(rest, wanted - fill, id, now_ms).resting);
        } else {
            assert(m.resting == seq![filled_by(o, fill)] + rest);
            assert forall|j: int| 0 <= j < m.resting.len() implies order_wf(
                #[trigger] m.resting[j],
                key,
                side,
                next_id,
            ) by {
                if j > 0 {
                    assert(order_wf(rest[j - 1], key, side, next_id));
                }
            }
        }
    }
}

/// What matching leaves of a well-formed side is well-formed.
proof fn lemma_match_levels_wf(
    levels: Seq<PriceLevel>,
    side: Side,
    price: int,
    wanted: int,
    id: OrderId,
    now_ms: u64,
    next_id: u64,
)
    requires
        side_wf(levels, opposite(side), next_id),
    ensures
        side_wf(
            match_levels(levels, side, price, wanted, id, now_ms).resting,
            opposite(side),
            next_id,
        ),
    decreases levels.len(),
{
    if wanted <= 0 || levels.len() == 0 || !crosses(side, price, levels[0].0) {
    } else {
        let other = opposite(side);
        let first = match_queue(levels[0].1, wanted, id, now_ms);
        assert forall|j: int| 0 <= j < levels[0].1.len() implies order_wf(
            #[trigger] levels[0].1[j],
            levels[0].0,
            other,
            next_id,
        ) by {}
        lemma_match_queue_wf(levels[0].1, wanted, id, now_ms, levels[0].0, other, next_id);
        if first.resting.len() == 0 {
            lemma_skip_wf(levels, other, next_id);
            lemma_match_levels_wf(
                levels.skip(1),
                side,
                price,
                first.wanted,
                id,
                now_ms,
                next_id,
            );
        } else {
            lemma_first_level_wf(levels, first.resting, other, next_id);
        }
    }
}

/// Where a key belongs on a side: behind all smaller keys, before all others.
pub(crate) proof fn lemma_place(levels: Seq<PriceLevel>, key: u64)
    requires
        forall|i: int, j: int| 0 <= i < j < levels.len() ==> levels[i].0 < levels[j].0,
    ensures
        0 <= place_of(levels, key) <= levels.len(),
        forall|i: int| 0 <= i < place_of(levels, key) ==> (#[trigger] levels[i]).0 < key,
        forall|i: int|
            place_of(levels, key) <= i < levels.len() ==> (#[trigger] levels[i]).0 >= key,
    decreases levels.len(),
{
    if levels.len() == 0 || levels[0].0 >= key {
    } else {
        let rest = levels.skip(1);
        lemma_place(rest, key);
        assert forall|i: int| 0 <= i < place_of(levels, key) implies (#[trigger] levels[i]).0
            < key by {
            if i > 0 {
                assert(rest[i - 1].0 < key);
            }
        }
        assert forall|i: int| place_of(levels, key) <= i < levels.len() implies (
        #[trigger] levels[i]).0 >= key by {
            assert(rest[i - 1].0 >= key);
        }
    }
}

/// A well-formed side with one more well-formed order, which came last, is
/// well-formed.
proof fn lemma_with_order_wf(
    levels: Seq<PriceLevel>,
    key: u64,
    o: LimitOrder,
    side: Side,
    next_id: u64,
)
    requires
        side_wf(levels, side, o.id),
        order_wf(o, key, side, next_id),
    ensures
        side_wf(with_order(levels, key, o), side, next_id),
{
    lemma_next_id(levels, side, o.id, next_id);
    lemma_place(levels, key);
    let at = place_of(levels, key);
    let after = with_order(levels, key, o);
    if at < levels.len() && levels[at].0 == key {
        assert forall|i: int| 0 <= i < after.len() implies (#[trigger] after[i]).1.len() > 0
        && oldest_first(after[i].1) by {
            assert(levels[i].1.len() > 0);
        }
        assert forall|i: int, j: int|
            0 <= i < after.len() && 0 <= j < after[i].1.len() implies order_wf(
            #[trigger] after[i].1[j],
            after[i].0,
            side,
            next_id,
        ) by {
            if i != at || j < levels[at].1.len() {
                assert(order_wf(levels[i].1[j], levels[i].0, side, next_id));
            }
        }
    } else {
        assert forall|i: int, j: int| 0 <= i < j < after.len() implies after[i].0
            < after[j].0 by {
            let a = if i < at { i } else { i - 1 };
            let b = if j < at { j } else { j - 1 };
            if i == at {
                assert(levels[b].0 >= key);
                assert(levels[at].0 != key);
                assert(b > at ==> levels[at].0 < levels[b].0);
            } else if j == at {
                assert(levels[a].0 < key);
            } else {
                assert(levels[a].0 < levels[b].0);
            }
        }
        assert forall|i: int| 0 <= i < after.len() implies (#[trigger] after[i]).1.len() > 0
        && oldest_first(after[i].1) by {
            if i < at {
                assert(levels[i].1.len() > 0);
            } else if i > at {
                assert(levels[i - 1].1.len() > 0);
            }
        }
        assert forall|i: int, j: int|
            0 <= i < after.len() && 0 <= j < after[i].1.len() implies order_wf(
            #[trigger] after[i].1[j],
            after[i].0,
            side,
            next_id,
        ) by {
            if i < at {
                assert(order_wf(levels[i].1[j], levels[i].0, side, next_id));
            } else if i > at {
                assert(order_wf(levels[i - 1].1[j], levels[i - 1].0, side, next_id));
            }
        }
    }
}

/// Filling the first order of a well-formed side leaves it well-formed.
proof fn lemma_first_filled_wf(levels: Seq<PriceLevel>, qty: int, side: Side, next_id: u64)
    requires
        side_wf(levels, side, next_id),
        levels.len() > 0,
        0 <= qty,
    ensures
        side_wf(first_filled(levels, qty), side, next_id),
{
    let orders = levels[0].1;
    let o = orders[0];
    assert(orders.len() > 0);
    assert(order_wf(o, levels[0].0, side, next_id));
    if o.remaining_qty <= qty {
        if orders.len() <= 1 {
            lemma_skip_wf(levels, side, next_id);
        } else {
            assert forall|j: int| 0 <= j < orders.skip(1).len() implies order_wf(
                #[trigger] orders.skip(1)[j],
                levels[0].0,
                side,
                next_id,
            ) by {
                assert(order_wf(levels[0].1[j + 1], levels[0].0, side, next_id));
            }
            lemma_first_level_wf(levels, orders.skip(1), side, next_id);
        }
    } else {
        let after = orders.update(0, filled_by(o, qty));
        assert forall|j: int| 0 <= j < after.len() implies order_wf(
            #[trigger] after[j],
            levels[0].0,
            side,
            next_id,
        ) by {
            assert(order_wf(levels[0].1[j], levels[0].0, side, next_id));
        }
        lemma_first_level_wf(levels, after, side, next_id);
    }
}

/// Filling the first order of a side leaves one that can still be matched.
pub(crate) proof fn lemma_first_filled_can_be_matched(levels: Seq<PriceLevel>, qty: int)
    requires
        can_be_matched(levels),
        levels.len() > 0,
        0 <= qty,
    ensures
        can_be_matched(first_filled(levels, qty)),
{
    let after = first_filled(levels, qty);
    let gone = levels[0].1[0].remaining_qty <= qty;
    let level_gone = gone && levels[0].1.len() <= 1;
    assert(levels[0].1.len() > 0);
    assert forall|i: int| 0 <= i < after.len() implies (#[trigger] after[i]).1.len() > 0 by {
        assert(levels[if level_gone { i + 1 } else { i }].1.len() > 0);
    }
    assert forall|i: int, j: int|
        0 <= i < after.len() && 0 <= j < after[i].1.len() implies (
    #[trigger] after[i].1[j]).remaining_qty > 0 by {
        if level_gone {
            assert(levels[i + 1].1[j].remaining_qty > 0);
        } else if gone && i == 0 {
            assert(levels[0].1[j + 1].remaining_qty > 0);
        } else {
            assert(levels[i].1[j].remaining_qty > 0);
        }
    }
}

/// The position of an ID in a queue is that of the first order with it.
pub(crate) proof fn lemma_position(queue: Seq<LimitOrder>, id: OrderId)
    ensures
        0 <= position_of(queue, id) <= queue.len(),
        position_of(queue, id) < queue.len() ==> queue[position_of(queue, id)].id == id,
        forall|j: int| 0 <= j < position_of(queue, id) ==> (#[trigger] queue[j]).id != id,
    decreases queue.len(),
{
    if queue.len() == 0 || queue[0].id == id {
    } else {
        let rest = queue.skip(1);
        lemma_position(rest, id);
        assert forall|j: int| 0 <= j < position_of(queue, id) implies (#[trigger] queue[j]).id
            != id by {
            if j > 0 {
                assert(rest[j - 1].id != id);
            }
        }
    }
}

/// A well-formed side without one of its orders is well-formed, and no level of
/// it is better than the best one was.
proof fn lemma_without_order_wf(
    levels: Seq<PriceLevel>,
    id: OrderId,
    side: Side,
    next_id: u64,
)
    requires
        side_wf(levels, side, next_id),
    ensures
        without_order(levels, id) matches Some(rest) ==> {
            &&& side_wf(rest, side, next_id)
            &&& rest.len() > 0 ==> rest[0].0 >= levels[0].0
        },
    decreases levels.len(),
{
    if levels.len() > 0 {
        let at = position_of(levels[0].1, id);
        lemma_position(levels[0].1, id);
        lemma_skip_wf(levels, side, next_id);
        if at < levels[0].1.len() {
            let rest = levels[0].1.remove(at);
            if rest.len() > 0 {
                assert forall|j: int| 0 <= j < rest.len() implies order_wf(
                    #[trigger] rest[j],
                    levels[0].0,
                    side,
                    next_id,
                ) by {
                    assert(order_wf(levels[0].1[j], levels[0].0, side, next_id));
                    assert(j + 1 < levels[0].1.len() ==> order_wf(
                        levels[0].1[j + 1],
                        levels[0].0,
                        side,
                        next_id,
                    ));
                }
                lemma_first_level_wf(levels, rest, side, next_id);
            }
        } else {
            lemma_without_order_wf(levels.skip(1), id, side, next_id);
            if let Some(rest) = without_order(levels.skip(1), id) {
                let after = seq![levels[0]] + rest;
                lemma_in_front_wf(levels[0], rest, side, next_id);
            }
        }
    }
}

/// A level with a better key in front of a well-formed side.
proof fn lemma_in_front_wf(
    level: PriceLevel,
    rest: Seq<PriceLevel>,
    side: Side,
    next_id: u64,
)
    requires
        side_wf(seq![level], side, next_id),
        side_wf(rest, side, next_id),
        rest.len() > 0 ==> level.0 < rest[0].0,
    ensures
        side_wf(seq![level] + rest, side, next_id),
{
    let after = seq![level] + rest;
    assert forall|i: int, j: int| 0 <= i < j < after.len() implies after[i].0 < after[j].0 by {
        assert(j > 1 ==> rest[0].0 < rest[j - 1].0);
        if i > 0 {
            assert(rest[i - 1].0 < rest[j - 1].0);
        }
    }
    assert forall|i: int| 0 <= i < after.len() implies (#[trigger] after[i]).1.len() > 0
        && oldest_first(after[i].1) by {
        if i > 0 {
            assert(rest[i - 1].1.len() > 0);
        } else {
            assert(seq![level][0].1.len() > 0);
        }
    }
    assert forall|i: int, j: int|
        0 <= i < after.len() && 0 <= j < after[i].1.len() implies order_wf(
        #[trigger] after[i].1[j],
        after[i].0,
        side,
        next_id,
    ) by {
        if i > 0 {
            assert(order_wf(rest[i - 1].1[j], rest[i - 1].0, side, next_id));
        } else {
            assert(order_wf(seq![level][0].1[j], seq![level][0].0, side, next_id));
        }
    }
}

/// IDs stay distinct where some of them go.
proof fn lemma_fewer_ids(before: Seq<OrderId>, n: int)
    requires
        before.no_duplicates(),
        0 <= n <= before.len(),
    ensures
        before.skip(n).no_duplicates(),
{
}

/// IDs stay distinct in matching.
proof fn lemma_matched_ids(
    levels: Seq<PriceLevel>,
    side: Side,
    price: int,
    wanted: int,
    id: OrderId,
    now_ms: u64,
)
    requires
        all_open(levels),
        distinct_ids(levels),
        wanted <= i128::MAX,
    ensures
        distinct_ids(match_levels(levels, side, price, wanted, id, now_ms).resting),
{
    matching_follows_priority(levels, side, price, wanted, id, now_ms);
    let before = side_orders(levels);
    let after = side_orders(match_levels(levels, side, price, wanted, id, now_ms).resting);
    let n = before.len() - after.len();
    lemma_fewer_ids(ids_of(before), n);
    assert(ids_of(after) =~= ids_of(before).skip(n));
}

/// An order with a new ID leaves the IDs distinct.
proof fn lemma_new_id(levels: Seq<PriceLevel>, key: u64, o: LimitOrder, side: Side, id: OrderId)
    requires
        side_wf(levels, side, id),
        distinct_ids(levels),
        o.id == id,
    ensures
        distinct_ids(with_order(levels, key, o)),
{
    lemma_with_order_orders(levels, key, o);
    let before = side_orders(levels);
    let after = side_orders(with_order(levels, key, o));
    let p = choose|p: int| 0 <= p <= before.len() && after == #[trigger] before.insert(p, o);
    assert(ids_of(after) =~= ids_of(before).insert(p, id));
    assert forall|k: int| 0 <= k < before.len() implies (#[trigger] before[k]).id < id by {
        lemma_order_in_side(levels, k, side, id);
    }
    let ids = ids_of(before);
    assert forall|i: int, j: int|
        0 <= i < ids.insert(p, id).len() && 0 <= j < ids.insert(p, id).len() && i
            != j implies ids.insert(p, id)[i] != ids.insert(p, id)[j] by {
        let a = if i < p { i } else { i - 1 };
        let b = if j < p { j } else { j - 1 };
        if i != p && j != p {
            assert(ids[a] != ids[b]);
        } else if i == p {
            assert(before[b].id < id);
        } else {
            assert(before[a].id < id);
        }
    }
}

/// Every order of a well-formed side was given its ID before.
proof fn lemma_order_in_side(levels: Seq<PriceLevel>, k: int, side: Side, next_id: u64)
    requires
        side_wf(levels, side, next_id),
        0 <= k < side_orders(levels).len(),
    ensures
        side_orders(levels)[k].id < next_id,
    decreases levels.len(),
{
    if levels.len() > 0 {
        if k < levels[0].1.len() {
            assert(order_wf(levels[0].1[k], levels[0].0, side, next_id));
        } else {
            lemma_skip_wf(levels, side, next_id);
            lemma_order_in_side(levels.skip(1), k - levels[0].1.len(), side, next_id);
        }
    }
}

/// A new order stands somewhere among the others, which keep their sequence.
proof fn lemma_with_order_orders(levels: Seq<PriceLevel>, key: u64, o: LimitOrder)
    ensures
        exists|p: int|
            0 <= p <= side_orders(levels).len() && side_orders(with_order(levels, key, o))
                == #[trigger] side_orders(levels).insert(p, o),
        0 <= place_of(levels, key) <= levels.len(),
    decreases levels.len(),
{
    let before = side_orders(levels);
    let after = with_order(levels, key, o);
    if levels.len() == 0 || levels[0].0 > key {
        assert(after =~= seq![(key, seq![o])] + levels);
        assert(after.skip(1) =~= levels);
        assert(side_orders(after) =~= before.insert(0, o));
    } else if levels[0].0 == key {
        let p = levels[0].1.len() as int;
        assert(after.skip(1) =~= levels.skip(1));
        assert(side_orders(after) =~= before.insert(p, o));
    } else {
        let tail = levels.skip(1);
        lemma_with_order_orders(tail, key, o);
        let behind = side_orders(tail);
        let p = choose|p: int|
            0 <= p <= behind.len() && side_orders(with_order(tail, key, o))
                == #[trigger] behind.insert(p, o);
        assert(after.skip(1) =~= with_order(tail, key, o));
        assert(after[0] == levels[0]);
        assert(side_orders(after) =~= before.insert(levels[0].1.len() + p, o));
    }
}

/// IDs stay distinct where the first order is filled.
proof fn lemma_first_filled_ids(levels: Seq<PriceLevel>, qty: int)
    requires
        levels.len() > 0,
        levels[0].1.len() > 0,
        distinct_ids(levels),
    ensures
        distinct_ids(first_filled(levels, qty)),
{
    let before = side_orders(levels);
    let after = first_filled(levels, qty);
    lemma_fewer_ids(ids_of(before), 1);
    if levels[0].1[0].remaining_qty <= qty {
        if levels[0].1.len() == 1 {
            assert(ids_of(side_orders(after)) =~= ids_of(before).skip(1));
        } else {
            assert(after.skip(1) =~= levels.skip(1));
            assert(ids_of(side_orders(after)) =~= ids_of(before).skip(1));
        }
    } else {
        assert(after.skip(1) =~= levels.skip(1));
        assert(ids_of(side_orders(after)) =~= ids_of(before));
    }
}

/// Filling the first order of a side takes one order out of it, or none.
pub proof fn lemma_first_filled_count(levels: Seq<PriceLevel>, qty: int)
    requires
        levels.len() > 0,
        levels[0].1.len() > 0,
    ensures
        order_count(first_filled(levels, qty)) == order_count(levels) - (if levels[0].1[0].remaining_qty
            <= qty {
            1int
        } else {
            0int
        }),
{
    let after = first_filled(levels, qty);
    if levels[0].1[0].remaining_qty <= qty && levels[0].1.len() == 1 {
    } else {
        assert(after.skip(1) =~= levels.skip(1));
    }
}

} // verus!
