//! What trading on the book amounts to, said of prices, quantities and orders.
//!
//! A level with key `k` stands for the price `k * 10_000` on the ask side and for
//! `(u64::MAX - k) * 10_000` on the bid side. The laws say it in numbers, and take
//! the orders of a side as one sequence, [`waiting`], in the order in which they
//! are matched.

use crate::order_book::{
    all_open, can_be_matched, depth_of, first_filled, ids_of, is_crossed, key_of,
    lemma_first_filled_can_be_matched, lemma_first_filled_count, lemma_limit_submitted_wf,
    lemma_market_submitted_wf, lemma_order_cancelled_wf, lemma_place, lemma_settle_wf,
    lemma_wf_open, lesser, limit_submitted, market_price, market_submitted, match_levels,
    match_queue, oldest_first, opposite, order_cancelled, order_count, order_wf, orders_matched,
    place_of, queue_qty, settle, side_orders, side_view, side_wf, status_after, with_order,
    without_order, Level, LimitOrder, OrderBookSim, OrderId, OrderStatus, PriceLevel, Side, Trade,
};
use crate::order_book_laws::{
    book_gives_what_the_order_gets, cancelled_order_is_gone, lemma_levels_open,
    lemma_queue_in_sequence, lemma_queue_qty_front, matching_follows_priority,
    order_gets_what_it_trades, settling_conserves_quantity, side_qty, trades_qty,
    unfilled_order_exhausts_its_price,
};
use vstd::prelude::*;

verus! {

/// The orders of a side of the book, level after level.
pub open spec fn waiting(levels: Seq<Level>) -> Seq<LimitOrder> {
    levels.map_values(|l: Level| l.queue@).flatten()
}

/// The side of the book that an order of a side trades with.
pub open spec fn counterparties(book: OrderBookSim, side: Side) -> Seq<Level> {
    match side {
        Side::Bid => book.asks@,
        Side::Ask => book.bids@,
    }
}

/// The side of the book on which an order of a side rests.
pub open spec fn fellows(book: OrderBookSim, side: Side) -> Seq<Level> {
    match side {
        Side::Bid => book.bids@,
        Side::Ask => book.asks@,
    }
}

/// What remains of orders together.
pub open spec fn amount(orders: Seq<LimitOrder>) -> int
    decreases orders.len(),
{
    if orders.len() == 0 {
        0
    } else {
        orders[0].remaining_qty + amount(orders.skip(1))
    }
}

/// The trades that were made since a book was `before`.
pub open spec fn made(before: OrderBookSim, after: OrderBookSim) -> Seq<Trade> {
    after.trades@.skip(before.trades@.len() as int)
}

/// Whether an order stands at a level.
pub open spec fn stands_at(o: LimitOrder, l: Level) -> bool {
    exists|j: int| 0 <= j < l.queue@.len() && #[trigger] l.queue@[j] == o
}

/// Whether a level of the other side is at the limit of an order or better: for a
/// bid no dearer than its price, for an ask no cheaper.
pub open spec fn is_within_limit(side: Side, price: int, l: Level) -> bool {
    match side {
        Side::Bid => l.key * 10_000 <= price,
        Side::Ask => (u64::MAX - l.key) * 10_000 >= price,
    }
}

/// Whether a trade is with an order that stands at the limit of an incoming order or
/// better, and at the price of the former.
pub open spec fn is_fair(t: Trade, levels: Seq<Level>, side: Side, price: int) -> bool {
    exists|i: int, o: LimitOrder|
        {
            &&& 0 <= i < levels.len()
            &&& #[trigger] stands_at(o, levels[i])
            &&& o.id == t.resting_id
            &&& o.price == t.price
            &&& is_within_limit(side, price, levels[i])
        }
}

proof fn lemma_waiting(levels: Seq<Level>)
    ensures
        waiting(levels) == side_orders(side_view(levels)),
    decreases levels.len(),
{
    let queues = levels.map_values(|l: Level| l.queue@);
    if levels.len() > 0 {
        lemma_waiting(levels.skip(1));
        assert(queues.drop_first() =~= levels.skip(1).map_values(|l: Level| l.queue@));
        assert(side_view(levels).skip(1) =~= side_view(levels.skip(1)));
        assert(queues.first() == levels[0].queue@);
    }
}

proof fn lemma_amount_concat(a: Seq<LimitOrder>, b: Seq<LimitOrder>)
    ensures
        amount(a + b) == amount(a) + amount(b),
    decreases a.len(),
{
    if a.len() == 0 {
        assert(a + b =~= b);
    } else {
        lemma_amount_concat(a.skip(1), b);
        assert((a + b).skip(1) =~= a.skip(1) + b);
    }
}

proof fn lemma_queue_amount(queue: Seq<LimitOrder>)
    ensures
        queue_qty(queue) == amount(queue),
    decreases queue.len(),
{
    if queue.len() > 0 {
        lemma_queue_qty_front(queue);
        lemma_queue_amount(queue.skip(1));
    }
}

proof fn lemma_side_amount(levels: Seq<PriceLevel>)
    ensures
        side_qty(levels) == amount(side_orders(levels)),
    decreases levels.len(),
{
    if levels.len() > 0 {
        lemma_queue_amount(levels[0].1);
        lemma_side_amount(levels.skip(1));
        lemma_amount_concat(levels[0].1, side_orders(levels.skip(1)));
    }
}

/// The first orders of a side stand at its first levels: as many levels are used up
/// as their orders are.
proof fn lemma_reached(
    levels: Seq<PriceLevel>,
    side: Side,
    price: int,
    wanted: int,
    id: OrderId,
    now_ms: u64,
    k: int,
) -> (at: (int, int))
    requires
        forall|i: int, j: int|
            0 <= i < levels.len() && 0 <= j < levels[i].1.len() ==> (
            #[trigger] levels[i].1[j]).remaining_qty > 0,
        wanted <= i128::MAX,
        0 <= k < match_levels(levels, side, price, wanted, id, now_ms).trades.len(),
    ensures
        0 <= at.0 < levels.len(),
        0 <= at.1 < levels[at.0].1.len(),
        levels[at.0].1[at.1] == side_orders(levels)[k],
        match side {
            Side::Bid => levels[at.0].0 * 10_000 <= price,
            Side::Ask => (u64::MAX - levels[at.0].0) * 10_000 >= price,
        },
    decreases levels.len(),
{
    lemma_levels_open(levels);
    let queue = levels[0].1;
    lemma_queue_in_sequence(queue, wanted, id, now_ms);
    let first = match_queue(queue, wanted, id, now_ms);
    let tail = levels.skip(1);
    assert(side_orders(levels) == queue + side_orders(tail));
    if k < first.trades.len() {
        assert(k < queue.len());
        assert((queue + side_orders(tail))[k] == queue[k]);
        (0, k)
    } else {
        assert(first.trades.len() == queue.len());
        let at = lemma_reached(tail, side, price, first.wanted, id, now_ms, k - first.trades.len());
        assert(tail[at.0] == levels[at.0 + 1]);
        matching_follows_priority(tail, side, price, first.wanted, id, now_ms);
        assert((queue + side_orders(tail))[k] == side_orders(tail)[k - queue.len()]);
        (at.0 + 1, at.1)
    }
}

/// No trade of a limit order is beyond its limit: a bid trades only with orders at
/// levels that cost no more than its price, an ask only with orders at levels that
/// pay no less. Each trade is at the price of the resting order.
pub proof fn limit_order_trades_within_its_limit(
    before: OrderBookSim,
    after: OrderBookSim,
    side: Side,
    price: i128,
    qty: i128,
    trader_id: Seq<char>,
    timestamp_ms: u64,
)
    requires
        before.wf(),
        limit_submitted(before, after, side, price as int, qty as int, trader_id, timestamp_ms),
    ensures
        forall|k: int|
            0 <= k < made(before, after).len() ==> is_fair(
                #[trigger] made(before, after)[k],
                counterparties(before, side),
                side,
                price as int,
            ),
{
    let levels = counterparties(before, side);
    let other = before.side(opposite(side));
    let id = before.next_id;
    let m = match_levels(other, side, price as int, qty as int, id, timestamp_ms);
    lemma_wf_open(other, opposite(side), id);
    matching_follows_priority(other, side, price as int, qty as int, id, timestamp_ms);
    assert(made(before, after) =~= m.trades);
    assert forall|k: int| 0 <= k < made(before, after).len() implies is_fair(
        #[trigger] made(before, after)[k],
        levels,
        side,
        price as int,
    ) by {
        let at = lemma_reached(other, side, price as int, qty as int, id, timestamp_ms, k);
        let o = other[at.0].1[at.1];
        assert(levels[at.0]@ == other[at.0]);
        assert(levels[at.0].queue@[at.1] == o);
        assert(stands_at(o, levels[at.0]));
        assert(m.trades[k].resting_id == o.id && m.trades[k].price == o.price);
    }
}

/// A limit order trades as much as it can: it is left with something only where
/// nothing rests on the other side at its limit or better, and it never trades more
/// than its quantity. An order of no quantity does not trade.
pub proof fn limit_order_trades_all_within_its_limit(
    before: OrderBookSim,
    after: OrderBookSim,
    side: Side,
    price: i128,
    qty: i128,
    trader_id: Seq<char>,
    timestamp_ms: u64,
)
    requires
        before.wf(),
        limit_submitted(before, after, side, price as int, qty as int, trader_id, timestamp_ms),
    ensures
        qty <= 0 ==> made(before, after).len() == 0,
        qty > 0 ==> 0 <= trades_qty(made(before, after)) <= qty,
        trades_qty(made(before, after)) < qty ==> forall|i: int|
            0 <= i < counterparties(after, side).len() ==> !is_within_limit(
                side,
                price as int,
                #[trigger] counterparties(after, side)[i],
            ),
        amount(waiting(counterparties(before, side))) - amount(
            waiting(counterparties(after, side)),
        ) == trades_qty(made(before, after)),
{
    let levels = counterparties(after, side);
    let other = before.side(opposite(side));
    let id = before.next_id;
    let m = match_levels(other, side, price as int, qty as int, id, timestamp_ms);
    lemma_wf_open(other, opposite(side), id);
    order_gets_what_it_trades(other, side, price as int, qty as int, id, timestamp_ms);
    book_gives_what_the_order_gets(other, side, price as int, qty as int, id, timestamp_ms);
    unfilled_order_exhausts_its_price(other, side, price as int, qty as int, id, timestamp_ms);
    assert(made(before, after) =~= m.trades);
    lemma_limit_submitted_wf(
        before,
        after,
        side,
        price as int,
        qty as int,
        trader_id,
        timestamp_ms,
    );
    lemma_waiting(counterparties(before, side));
    lemma_waiting(levels);
    lemma_side_amount(other);
    lemma_side_amount(m.resting);
    if trades_qty(made(before, after)) < qty {
        assert forall|i: int| 0 <= i < levels.len() implies !is_within_limit(
            side,
            price as int,
            #[trigger] levels[i],
        ) by {
            assert(levels[i]@ == m.resting[i]);
            assert(i > 0 ==> m.resting[0].0 < m.resting[i].0);
        }
    }
}

/// A market order is left unfilled only where the other side is used up: what it
/// trades is its quantity or all that rested there, whichever is less, whatever the
/// prices.
pub proof fn market_order_takes_what_there_is(
    before: OrderBookSim,
    after: OrderBookSim,
    side: Side,
    qty: i128,
    timestamp_ms: u64,
)
    requires
        before.wf(),
        market_submitted(before, after, side, qty as int, timestamp_ms),
    ensures
        ({
            let rested = amount(waiting(counterparties(before, side)));
            let left = amount(waiting(counterparties(after, side)));
            let traded = trades_qty(made(before, after));
            &&& qty <= 0 ==> made(before, after).len() == 0 && left == rested
            &&& qty > 0 ==> traded == (if qty <= rested {
                qty as int
            } else {
                rested
            })
            &&& traded < qty ==> counterparties(after, side).len() == 0
            &&& rested - left == traded
            &&& fellows(after, side).len() == fellows(before, side).len()
            &&& waiting(fellows(after, side)) == waiting(fellows(before, side))
        }),
{
    let levels = counterparties(after, side);
    let other = before.side(opposite(side));
    let id = before.next_id;
    let price = market_price(side);
    let m = match_levels(other, side, price, qty as int, id, timestamp_ms);
    lemma_wf_open(other, opposite(side), id);
    order_gets_what_it_trades(other, side, price, qty as int, id, timestamp_ms);
    book_gives_what_the_order_gets(other, side, price, qty as int, id, timestamp_ms);
    unfilled_order_exhausts_its_price(other, side, price, qty as int, id, timestamp_ms);
    assert(made(before, after) =~= m.trades);
    lemma_market_submitted_wf(before, after, side, qty as int, timestamp_ms);
    lemma_waiting(counterparties(before, side));
    lemma_waiting(levels);
    lemma_side_amount(other);
    lemma_side_amount(m.resting);
    lemma_waiting(fellows(before, side));
    lemma_waiting(fellows(after, side));
    assert(after.side(side).len() == fellows(after, side).len());
    assert(before.side(side).len() == fellows(before, side).len());
    if trades_qty(m.trades) < qty {
        if levels.len() > 0 {
            assert(levels[0]@ == m.resting[0]);
        }
        assert(waiting(levels) =~= Seq::<LimitOrder>::empty());
    }
    lemma_amount_not_negative(waiting(levels), levels, opposite(side), after.next_id);
}

proof fn lemma_amount_not_negative(
    orders: Seq<LimitOrder>,
    levels: Seq<Level>,
    side: Side,
    next_id: u64,
)
    requires
        side_wf(side_view(levels), side, next_id),
        orders == waiting(levels),
    ensures
        amount(orders) >= 0,
    decreases levels.len(),
{
    if levels.len() > 0 {
        let tail = levels.skip(1);
        let all = side_view(levels);
        lemma_waiting(levels);
        lemma_waiting(tail);
        assert(side_view(tail) =~= all.skip(1));
        assert forall|i: int, j: int|
            0 <= i < side_view(tail).len() && 0 <= j < side_view(tail)[i].1.len() implies
            order_wf(
            #[trigger] side_view(tail)[i].1[j],
            side_view(tail)[i].0,
            side,
            next_id,
        ) by {
            assert(all[i + 1].1[j] == side_view(tail)[i].1[j]);
        }
        assert forall|i: int| 0 <= i < side_view(tail).len() implies (
        #[trigger] side_view(tail)[i]).1.len() > 0 && oldest_first(
            side_view(tail)[i].1,
        ) by {
            assert(all[i + 1] == side_view(tail)[i]);
        }
        lemma_amount_not_negative(waiting(tail), tail, side, next_id);
        lemma_amount_concat(all[0].1, side_orders(all.skip(1)));
        lemma_open_amount(all[0].1, all[0].0, side, next_id);
    }
}

proof fn lemma_open_amount(queue: Seq<LimitOrder>, key: u64, side: Side, next_id: u64)
    requires
        forall|j: int|
            0 <= j < queue.len() ==> order_wf(
                #[trigger] queue[j],
                key,
                side,
                next_id,
            ),
    ensures
        amount(queue) >= 0,
    decreases queue.len(),
{
    if queue.len() > 0 {
        let tail = queue.skip(1);
        assert forall|j: int| 0 <= j < tail.len() implies order_wf(
            #[trigger] tail[j],
            key,
            side,
            next_id,
        ) by {
            assert(queue[j + 1] == tail[j]);
        }
        lemma_open_amount(tail, key, side, next_id);
        assert(order_wf(queue[0], key, side, next_id));
    }
}

/// How an incoming order goes through those that wait: it trades with the first of
/// them, one after the other, each time for all that is left of the order, except
/// perhaps the last time. Each trade is at the price of the order that waited. The
/// orders that were traded whole are gone, the others wait as before, and one that
/// was traded in part keeps its place, with so much less to fill.
pub open spec fn takes_in_turn(
    before: Seq<LimitOrder>,
    after: Seq<LimitOrder>,
    trades: Seq<Trade>,
    id: OrderId,
    now_ms: u64,
) -> bool {
    let gone = before.len() - after.len();
    &&& 0 <= gone <= trades.len() <= gone + 1
    &&& trades.len() <= before.len()
    &&& forall|k: int|
        0 <= k < trades.len() ==> {
            &&& (#[trigger] trades[k]).aggressor_id == id
            &&& trades[k].resting_id == before[k].id
            &&& trades[k].price == before[k].price
            &&& trades[k].timestamp_ms == now_ms
            &&& 0 < trades[k].qty <= before[k].remaining_qty
            &&& trades[k].qty == before[k].remaining_qty <==> k < gone
        }
    &&& forall|k: int|
        trades.len() <= k < before.len() ==> #[trigger] before[k] == after[k - gone]
    &&& trades.len() > gone ==> {
        let was = before[gone];
        let is = after[0];
        &&& is.remaining_qty == was.remaining_qty - trades[gone].qty
        &&& is.status == OrderStatus::PartiallyFilled
        &&& is.id == was.id && is.side == was.side && is.price == was.price && is.qty == was.qty
        &&& is.timestamp_ms == was.timestamp_ms && is.trader_id == was.trader_id
    }
}

proof fn lemma_takes_in_turn(
    levels: Seq<PriceLevel>,
    side: Side,
    price: int,
    wanted: int,
    id: OrderId,
    now_ms: u64,
)
    requires
        all_open(levels),
        wanted <= i128::MAX,
    ensures
        ({
            let m = match_levels(levels, side, price, wanted, id, now_ms);
            takes_in_turn(side_orders(levels), side_orders(m.resting), m.trades, id, now_ms)
        }),
{
    let m = match_levels(levels, side, price, wanted, id, now_ms);
    let before = side_orders(levels);
    let after = side_orders(m.resting);
    let gone = before.len() - after.len();
    matching_follows_priority(levels, side, price, wanted, id, now_ms);
    lemma_all_open_orders(levels);
    assert forall|k: int| 0 <= k < m.trades.len() implies {
        &&& (#[trigger] m.trades[k]).aggressor_id == id
        &&& m.trades[k].resting_id == before[k].id
        &&& m.trades[k].price == before[k].price
        &&& m.trades[k].timestamp_ms == now_ms
        &&& 0 < m.trades[k].qty <= before[k].remaining_qty
        &&& m.trades[k].qty == before[k].remaining_qty <==> k < gone
    } by {
        assert(before[k].remaining_qty > 0);
    }
    assert forall|k: int| m.trades.len() <= k < before.len() implies #[trigger] before[k] == after[k
        - gone] by {
        assert(before.skip(gone)[k - gone] == before[k]);
    }
}

proof fn lemma_all_open_orders(levels: Seq<PriceLevel>)
    requires
        all_open(levels),
    ensures
        forall|k: int|
            0 <= k < side_orders(levels).len() ==> (
            #[trigger] side_orders(levels)[k]).remaining_qty > 0,
    decreases levels.len(),
{
    if levels.len() > 0 {
        lemma_levels_open(levels);
        lemma_all_open_orders(levels.skip(1));
        let queue = levels[0].1;
        let rest = side_orders(levels.skip(1));
        assert forall|k: int| 0 <= k < side_orders(levels).len() implies (
        #[trigger] side_orders(levels)[k]).remaining_qty > 0 by {
            if k < queue.len() {
                assert(queue[k].remaining_qty > 0);
            } else {
                assert(rest[k - queue.len()].remaining_qty > 0);
            }
        }
    }
}

/// Price-time priority of limit orders: an incoming one takes those that wait on the
/// other side in turn.
pub proof fn limit_order_takes_in_turn(
    before: OrderBookSim,
    after: OrderBookSim,
    side: Side,
    price: i128,
    qty: i128,
    trader_id: Seq<char>,
    timestamp_ms: u64,
)
    requires
        before.wf(),
        limit_submitted(before, after, side, price as int, qty as int, trader_id, timestamp_ms),
    ensures
        after.next_id == before.next_id + 1,
        after.symbol == before.symbol,
        after.trades@ == before.trades@ + made(before, after),
        takes_in_turn(
            waiting(counterparties(before, side)),
            waiting(counterparties(after, side)),
            made(before, after),
            before.next_id,
            timestamp_ms,
        ),
        is_in_order(counterparties(after, side)),
{
    let other = before.side(opposite(side));
    let id = before.next_id;
    let m = match_levels(other, side, price as int, qty as int, id, timestamp_ms);
    lemma_wf_open(other, opposite(side), id);
    lemma_takes_in_turn(other, side, price as int, qty as int, id, timestamp_ms);
    assert(made(before, after) =~= m.trades);
    lemma_waiting(counterparties(before, side));
    lemma_waiting(counterparties(after, side));
    lemma_limit_submitted_wf(
        before,
        after,
        side,
        price as int,
        qty as int,
        trader_id,
        timestamp_ms,
    );
    lemma_in_order(counterparties(after, side), opposite(side), after.next_id);
}

/// Price-time priority of market orders: an incoming one takes those that wait on the
/// other side in turn.
pub proof fn market_order_takes_in_turn(
    before: OrderBookSim,
    after: OrderBookSim,
    side: Side,
    qty: i128,
    timestamp_ms: u64,
)
    requires
        before.wf(),
        market_submitted(before, after, side, qty as int, timestamp_ms),
    ensures
        after.next_id == before.next_id + 1,
        after.symbol == before.symbol,
        after.trades@ == before.trades@ + made(before, after),
        takes_in_turn(
            waiting(counterparties(before, side)),
            waiting(counterparties(after, side)),
            made(before, after),
            before.next_id,
            timestamp_ms,
        ),
        is_in_order(counterparties(after, side)),
{
    let other = before.side(opposite(side));
    let id = before.next_id;
    let m = match_levels(other, side, market_price(side), qty as int, id, timestamp_ms);
    lemma_wf_open(other, opposite(side), id);
    lemma_takes_in_turn(other, side, market_price(side), qty as int, id, timestamp_ms);
    assert(made(before, after) =~= m.trades);
    lemma_waiting(counterparties(before, side));
    lemma_waiting(counterparties(after, side));
    lemma_market_submitted_wf(before, after, side, qty as int, timestamp_ms);
    lemma_in_order(counterparties(after, side), opposite(side), after.next_id);
}

/// Whether levels stand best price first and orders at a level oldest first: keys
/// rise from level to level, and IDs within a level. No level is empty, and no order
/// is filled.
pub open spec fn is_in_order(levels: Seq<Level>) -> bool {
    &&& forall|i: int, j: int|
        0 <= i < j < levels.len() ==> (#[trigger] levels[i]).key < (#[trigger] levels[j]).key
    &&& forall|i: int| 0 <= i < levels.len() ==> (#[trigger] levels[i]).queue@.len() > 0
    &&& forall|i: int, j: int, k: int|
        0 <= i < levels.len() && 0 <= j < k < levels[i].queue@.len() ==> (
        #[trigger] levels[i].queue@[j]).id < (#[trigger] levels[i].queue@[k]).id
    &&& forall|i: int, j: int|
        0 <= i < levels.len() && 0 <= j < levels[i].queue@.len() ==> (
        #[trigger] levels[i].queue@[j]).remaining_qty > 0
}

proof fn lemma_in_order(levels: Seq<Level>, side: Side, next_id: u64)
    requires
        side_wf(side_view(levels), side, next_id),
    ensures
        is_in_order(levels),
{
    let all = side_view(levels);
    assert forall|i: int, j: int| 0 <= i < j < levels.len() implies (#[trigger] levels[i]).key < (
    #[trigger] levels[j]).key by {
        assert(all[i].0 < all[j].0);
    }
    assert forall|i: int| 0 <= i < levels.len() implies (
    #[trigger] levels[i]).queue@.len() > 0 by {
        assert(all[i].1.len() > 0);
    }
    assert forall|i: int, j: int, k: int|
        0 <= i < levels.len() && 0 <= j < k < levels[i].queue@.len() implies (
    #[trigger] levels[i].queue@[j]).id < (#[trigger] levels[i].queue@[k]).id by {
        assert(oldest_first(all[i].1));
        assert(all[i].1[j].id < all[i].1[k].id);
    }
    assert forall|i: int, j: int|
        0 <= i < levels.len() && 0 <= j < levels[i].queue@.len() implies (
    #[trigger] levels[i].queue@[j]).remaining_qty > 0 by {
        assert(order_wf(all[i].1[j], all[i].0, side, next_id));
    }
}

/// Whether a level is the one of a price: the price lies less than one step of the
/// book above it. A negative price belongs to the lowest level, and one beyond the
/// range of keys to the highest.
pub open spec fn is_level_of(key: u64, side: Side, price: int) -> bool {
    let level = match side {
        Side::Bid => (u64::MAX - key) * 10_000,
        Side::Ask => key * 10_000,
    };
    if price < 0 {
        level == 0
    } else if price > u64::MAX * 10_000 {
        level == u64::MAX * 10_000
    } else {
        level <= price < level + 10_000
    }
}

/// Whether a side is as it was but for one order behind all others at its level `i`.
pub open spec fn is_joined_at(was: Seq<PriceLevel>, now: Seq<PriceLevel>, i: int) -> bool {
    &&& 0 <= i < now.len()
    &&& now[i].1.len() > 0
    &&& was == if now[i].1.len() == 1 {
        now.remove(i)
    } else {
        now.update(i, (now[i].0, now[i].1.drop_last()))
    }
}

/// Whether an order is the one that was submitted, with so much of it traded.
pub open spec fn is_remainder_of(
    o: LimitOrder,
    id: OrderId,
    side: Side,
    price: int,
    qty: int,
    traded: int,
    trader_id: Seq<char>,
    timestamp_ms: u64,
) -> bool {
    &&& o.id == id
    &&& o.side == side
    &&& o.price == price
    &&& o.qty == qty
    &&& o.remaining_qty == qty - traded
    &&& o.status == (if traded > 0 {
        OrderStatus::PartiallyFilled
    } else {
        OrderStatus::Open
    })
    &&& o.timestamp_ms == timestamp_ms
    &&& o.trader_id@ == trader_id
}

proof fn lemma_joined(was: Seq<PriceLevel>, key: u64, o: LimitOrder) -> (i: int)
    requires
        forall|a: int, b: int| 0 <= a < b < was.len() ==> was[a].0 < was[b].0,
        forall|a: int| 0 <= a < was.len() ==> (#[trigger] was[a]).1.len() > 0,
    ensures
        ({
            let now = with_order(was, key, o);
            &&& is_joined_at(was, now, i)
            &&& now[i].0 == key
            &&& now[i].1.last() == o
        }),
{
    lemma_place(was, key);
    let i = place_of(was, key);
    let now = with_order(was, key, o);
    if i < was.len() && was[i].0 == key {
        assert(was[i].1.len() > 0);
        assert(was[i].1.push(o).drop_last() =~= was[i].1);
        assert(was =~= now.update(i, (now[i].0, now[i].1.drop_last())));
    } else {
        assert(was =~= now.remove(i));
    }
    i
}

/// What a limit order does not trade rests on its own side, behind the orders at its
/// level; all else on that side is as it was. An order that is traded whole leaves
/// its own side alone.
pub proof fn limit_order_rests_with_the_remainder(
    before: OrderBookSim,
    after: OrderBookSim,
    side: Side,
    price: i128,
    qty: i128,
    trader_id: Seq<char>,
    timestamp_ms: u64,
)
    requires
        before.wf(),
        limit_submitted(before, after, side, price as int, qty as int, trader_id, timestamp_ms),
    ensures
        is_in_order(fellows(after, side)),
        ({
            let traded = trades_qty(made(before, after));
            let now = side_view(fellows(after, side));
            let was = side_view(fellows(before, side));
            if traded >= qty {
                now == was
            } else {
                exists|i: int|
                    {
                        &&& #[trigger] is_joined_at(was, now, i)
                        &&& is_level_of(now[i].0, side, price as int)
                        &&& is_remainder_of(
                            now[i].1.last(),
                            before.next_id,
                            side,
                            price as int,
                            qty as int,
                            traded,
                            trader_id,
                            timestamp_ms,
                        )
                    }
            }
        }),
{
    let other = before.side(opposite(side));
    let id = before.next_id;
    let m = match_levels(other, side, price as int, qty as int, id, timestamp_ms);
    let now = side_view(fellows(after, side));
    let was = side_view(fellows(before, side));
    lemma_wf_open(other, opposite(side), id);
    order_gets_what_it_trades(other, side, price as int, qty as int, id, timestamp_ms);
    assert(made(before, after) =~= m.trades);
    lemma_limit_submitted_wf(
        before,
        after,
        side,
        price as int,
        qty as int,
        trader_id,
        timestamp_ms,
    );
    lemma_in_order(fellows(after, side), side, after.next_id);
    if m.wanted > 0 {
        let key = key_of(price as int, side) as u64;
        let o = choose|o: LimitOrder|
            {
                &&& o.id == id
                &&& o.side == side
                &&& o.price == price
                &&& o.qty == qty
                &&& o.remaining_qty == m.wanted
                &&& o.status == status_after(qty as int, m.wanted)
                &&& o.timestamp_ms == timestamp_ms
                &&& o.trader_id@ == trader_id
                &&& after.side(side) == #[trigger] with_order(
                    before.side(side),
                    key_of(price as int, side) as u64,
                    o,
                )
            };
        let i = lemma_joined(was, key, o);
        key_is_that_of_the_level(price as int, side);
        assert(is_joined_at(was, now, i));
    }
}

/// The key of a price is that of its level.
pub proof fn key_is_that_of_the_level(price: int, side: Side)
    ensures
        0 <= key_of(price, side) <= u64::MAX,
        is_level_of(key_of(price, side) as u64, side, price),
{
}

/// Cancelling takes the order with the ID off its side, wherever it waits there, and
/// nothing else; where there is no such order, nothing changes.
pub proof fn cancelling_takes_one_order_off(
    before: OrderBookSim,
    after: OrderBookSim,
    id: OrderId,
    side: Side,
)
    requires
        before.wf(),
        order_cancelled(before, after, id, side),
    ensures
        ({
            let was = waiting(fellows(before, side));
            let is = waiting(fellows(after, side));
            &&& after.next_id == before.next_id
            &&& after.symbol == before.symbol
            &&& after.trades@ == before.trades@
            &&& waiting(counterparties(after, side)) == waiting(counterparties(before, side))
            &&& is_in_order(fellows(after, side))
            &&& without_order(before.side(side), id) is Some <==> exists|p: int|
                0 <= p < was.len() && (#[trigger] was[p]).id == id
            &&& forall|p: int|
                0 <= p < was.len() && (#[trigger] was[p]).id == id ==> is == was.remove(p)
            &&& (forall|p: int| 0 <= p < was.len() ==> (#[trigger] was[p]).id != id) ==> is == was
        }),
{
    let levels = before.side(side);
    let was = waiting(fellows(before, side));
    let is = waiting(fellows(after, side));
    lemma_waiting(fellows(before, side));
    lemma_waiting(fellows(after, side));
    lemma_waiting(counterparties(before, side));
    lemma_waiting(counterparties(after, side));
    lemma_order_cancelled_wf(before, after, id, side);
    lemma_in_order(fellows(after, side), side, after.next_id);
    cancelled_order_is_gone(levels, id);
    let ids = ids_of(was);
    match without_order(levels, id) {
        Some(rest) => {
            let q = choose|q: int|
                0 <= q < was.len() && was[q].id == id && side_orders(rest)
                    == #[trigger] was.remove(q);
            assert forall|p: int| 0 <= p < was.len() && (#[trigger] was[p]).id == id implies is
                == was.remove(p) by {
                assert(ids[p] == ids[q]);
                assert(p == q);
            }
            assert(was[q].id == id);
        },
        None => {
            assert forall|p: int| 0 <= p < was.len() implies (#[trigger] was[p]).id != id by {
                assert(ids[p] == was[p].id);
            }
        },
    }
}

/// Whether an order with an ID and a price waits at the level with a key, with so
/// much to fill at least.
pub open spec fn offers(
    levels: Seq<PriceLevel>,
    id: OrderId,
    price: i128,
    key: u64,
    qty: int,
) -> bool {
    exists|i: int, j: int|
        {
            &&& 0 <= i < levels.len()
            &&& 0 <= j < levels[i].1.len()
            &&& levels[i].0 == key
            &&& (#[trigger] levels[i].1[j]).id == id
            &&& levels[i].1[j].price == price
            &&& levels[i].1[j].remaining_qty >= qty
        }
}

/// Whether a trade of the matching engine is between a bid and an ask that reach each
/// other: the level of the bid pays no less than that of the ask costs. The bid is the
/// aggressor, and the price is that of the ask.
pub open spec fn is_meeting(
    t: Trade,
    bids: Seq<PriceLevel>,
    asks: Seq<PriceLevel>,
    now_ms: u64,
) -> bool {
    &&& t.timestamp_ms == now_ms
    &&& t.qty > 0
    &&& exists|price: i128, bid: u64, ask: u64|
        {
            &&& #[trigger] offers(bids, t.aggressor_id, price, bid, t.qty as int)
            &&& #[trigger] offers(asks, t.resting_id, t.price, ask, t.qty as int)
            &&& (u64::MAX - bid) * 10_000 >= ask * 10_000
        }
}

/// Whether orders are the last of those before: all behind the first are as they
/// were, and the first is the same order, with no more to fill than before.
pub open spec fn are_last_of(after: Seq<LimitOrder>, before: Seq<LimitOrder>) -> bool {
    let gone = before.len() - after.len();
    &&& gone >= 0
    &&& forall|k: int| 1 <= k < after.len() ==> #[trigger] after[k] == before[k + gone]
    &&& after.len() > 0 ==> {
        let was = before[gone];
        let is = after[0];
        &&& 0 < is.remaining_qty <= was.remaining_qty
        &&& is.id == was.id && is.side == was.side && is.price == was.price && is.qty == was.qty
        &&& is.timestamp_ms == was.timestamp_ms && is.trader_id == was.trader_id
    }
}

proof fn lemma_first_filled_orders(levels: Seq<PriceLevel>, qty: int)
    requires
        can_be_matched(levels),
        levels.len() > 0,
        0 < qty <= levels[0].1[0].remaining_qty,
    ensures
        are_last_of(side_orders(first_filled(levels, qty)), side_orders(levels)),
        forall|id: OrderId, price: i128, key: u64, q: int|
            offers(first_filled(levels, qty), id, price, key, q) ==> #[trigger] offers(
                levels,
                id,
                price,
                key,
                q,
            ),
{
    let after = first_filled(levels, qty);
    let queue = levels[0].1;
    let rest = side_orders(levels.skip(1));
    assert(queue.len() > 0);
    lemma_all_open_orders(levels);
    let o = queue[0];
    assert(side_orders(levels) == queue + rest);
    if o.remaining_qty <= qty {
        if queue.len() <= 1 {
            assert(side_orders(after) =~= (queue + rest).skip(1));
        } else {
            assert(after.skip(1) =~= levels.skip(1));
            assert(side_orders(after) == queue.skip(1) + rest);
            assert(side_orders(after) =~= (queue + rest).skip(1));
        }
        assert forall|k: int| 0 <= k < side_orders(after).len() implies side_orders(after)[k]
            == side_orders(levels)[k + 1] by {}
        if side_orders(after).len() > 0 {
            assert(side_orders(levels)[1].remaining_qty > 0);
        }
    } else {
        assert(after.skip(1) =~= levels.skip(1));
        assert(side_orders(after) == after[0].1 + rest);
    }
    assert forall|id: OrderId, price: i128, key: u64, q: int|
        offers(after, id, price, key, q) implies #[trigger] offers(levels, id, price, key, q) by {
        let (i, j) = choose|i: int, j: int|
            {
                &&& 0 <= i < after.len()
                &&& 0 <= j < after[i].1.len()
                &&& after[i].0 == key
                &&& (#[trigger] after[i].1[j]).id == id
                &&& after[i].1[j].price == price
                &&& after[i].1[j].remaining_qty >= q
            };
        if o.remaining_qty <= qty && queue.len() <= 1 {
            assert(levels[i + 1].1[j] == after[i].1[j]);
        } else if o.remaining_qty <= qty && i == 0 {
            assert(levels[0].1[j + 1] == after[0].1[j]);
        } else if i == 0 && j == 0 {
            assert(levels[0].1[0].id == id);
        } else {
            assert(levels[i].1[j] == after[i].1[j]);
        }
    }
}

proof fn lemma_last_of_last(a: Seq<LimitOrder>, b: Seq<LimitOrder>, c: Seq<LimitOrder>)
    requires
        are_last_of(a, b),
        are_last_of(b, c),
    ensures
        are_last_of(a, c),
{
    let x = b.len() - a.len();
    let y = c.len() - b.len();
    assert forall|k: int| 1 <= k < a.len() implies #[trigger] a[k] == c[k + x + y] by {
        assert(a[k] == b[k + x]);
    }
}

proof fn lemma_settled(bids: Seq<PriceLevel>, asks: Seq<PriceLevel>, now_ms: u64)
    requires
        can_be_matched(bids),
        can_be_matched(asks),
    ensures
        ({
            let s = settle(bids, asks, now_ms);
            &&& forall|k: int|
                0 <= k < s.trades.len() ==> is_meeting(#[trigger] s.trades[k], bids, asks, now_ms)
            &&& are_last_of(side_orders(s.bids), side_orders(bids))
            &&& are_last_of(side_orders(s.asks), side_orders(asks))
        }),
    decreases order_count(bids) + order_count(asks),
{
    lemma_all_open_orders(bids);
    lemma_all_open_orders(asks);
    if is_crossed(bids, asks) {
        assert(bids[0].1.len() > 0 && asks[0].1.len() > 0);
        let bid = bids[0].1[0];
        let ask = asks[0].1[0];
        assert(bids[0].1[0].remaining_qty > 0 && asks[0].1[0].remaining_qty > 0);
        let fill = lesser(bid.remaining_qty as int, ask.remaining_qty as int);
        let (b, a) = (first_filled(bids, fill), first_filled(asks, fill));
        lemma_first_filled_count(bids, fill);
        lemma_first_filled_count(asks, fill);
        lemma_first_filled_can_be_matched(bids, fill);
        lemma_first_filled_can_be_matched(asks, fill);
        lemma_first_filled_orders(bids, fill);
        lemma_first_filled_orders(asks, fill);
        lemma_settled(b, a, now_ms);
        let s = settle(bids, asks, now_ms);
        let rest = settle(b, a, now_ms);
        lemma_last_of_last(side_orders(rest.bids), side_orders(b), side_orders(bids));
        lemma_last_of_last(side_orders(rest.asks), side_orders(a), side_orders(asks));
        assert forall|k: int| 0 <= k < s.trades.len() implies is_meeting(
            #[trigger] s.trades[k],
            bids,
            asks,
            now_ms,
        ) by {
            if k == 0 {
                let t = s.trades[0];
                assert(t.qty == fill);
                assert(bids[0].1[0].id == t.aggressor_id);
                assert(asks[0].1[0].id == t.resting_id);
                assert(offers(bids, t.aggressor_id, bid.price, bids[0].0, t.qty as int));
                assert(offers(asks, t.resting_id, t.price, asks[0].0, t.qty as int));
                assert((u64::MAX - bids[0].0) * 10_000 >= asks[0].0 * 10_000);
            } else {
                let t = rest.trades[k - 1];
                assert(s.trades[k] == t);
                assert(is_meeting(t, b, a, now_ms));
                let (p, x, y) = choose|p: i128, x: u64, y: u64|
                    {
                        &&& #[trigger] offers(b, t.aggressor_id, p, x, t.qty as int)
                        &&& #[trigger] offers(a, t.resting_id, t.price, y, t.qty as int)
                        &&& (u64::MAX - x) * 10_000 >= y * 10_000
                    };
                assert(offers(bids, t.aggressor_id, p, x, t.qty as int));
                assert(offers(asks, t.resting_id, t.price, y, t.qty as int));
            }
        }
    }
}

/// The matching engine trades bids with asks that they reach, from the front of both
/// sides, until the best bid is below the best ask. It takes as much from the bids as
/// from the asks, and leaves a book alone whose best bid is below its best ask.
pub proof fn matching_engine_makes_ends_meet(before: OrderBookSim, after: OrderBookSim, now_ms: u64)
    requires
        before.wf(),
        orders_matched(before, after, now_ms),
    ensures
        after.next_id == before.next_id,
        after.symbol == before.symbol,
        after.trades@ == before.trades@ + made(before, after),
        forall|k: int|
            0 <= k < made(before, after).len() ==> is_meeting(
                #[trigger] made(before, after)[k],
                side_view(before.bids@),
                side_view(before.asks@),
                now_ms,
            ),
        after.bids@.len() > 0 && after.asks@.len() > 0 ==> (u64::MAX - after.bids@[0].key) * 10_000
            < after.asks@[0].key * 10_000,
        amount(waiting(before.bids@)) - amount(waiting(after.bids@)) == trades_qty(
            made(before, after),
        ),
        amount(waiting(before.asks@)) - amount(waiting(after.asks@)) == trades_qty(
            made(before, after),
        ),
        are_last_of(waiting(after.bids@), waiting(before.bids@)),
        are_last_of(waiting(after.asks@), waiting(before.asks@)),
        is_in_order(after.bids@),
        is_in_order(after.asks@),
        before.bids@.len() == 0 || before.asks@.len() == 0 || (u64::MAX - before.bids@[0].key)
            * 10_000 < before.asks@[0].key * 10_000 ==> made(before, after).len() == 0 && waiting(
            after.bids@,
        ) == waiting(before.bids@) && waiting(after.asks@) == waiting(before.asks@),
{
    let (bids, asks) = (before.bid_side(), before.ask_side());
    let s = settle(bids, asks, now_ms);
    lemma_wf_open(bids, Side::Bid, before.next_id);
    lemma_wf_open(asks, Side::Ask, before.next_id);
    lemma_settle_wf(bids, asks, now_ms, before.next_id);
    lemma_settled(bids, asks, now_ms);
    settling_conserves_quantity(bids, asks, now_ms);
    assert(made(before, after) =~= s.trades);
    lemma_waiting(before.bids@);
    lemma_waiting(before.asks@);
    lemma_waiting(after.bids@);
    lemma_waiting(after.asks@);
    lemma_side_amount(bids);
    lemma_side_amount(asks);
    lemma_side_amount(s.bids);
    lemma_side_amount(s.asks);
    lemma_in_order(after.bids@, Side::Bid, after.next_id);
    lemma_in_order(after.asks@, Side::Ask, after.next_id);
    if after.bids@.len() > 0 && after.asks@.len() > 0 {
        assert(s.bids[0] == after.bids@[0]@);
        assert(s.asks[0] == after.asks@[0]@);
    }
    if before.bids@.len() > 0 && before.asks@.len() > 0 {
        assert(bids[0] == before.bids@[0]@);
        assert(asks[0] == before.asks@[0]@);
    }
}

/// A snapshot of a side gives for each of its first levels the price that the key
/// stands for and what remains of all orders there.
pub proof fn snapshot_adds_up_the_levels(levels: Seq<Level>, side: Side, depth: int, i: int)
    requires
        0 <= i < depth,
        i < levels.len(),
    ensures
        ({
            let shown = depth_of(side_view(levels), side, depth);
            &&& i < shown.len() <= depth
            &&& shown.len() <= levels.len()
            &&& shown[i].0 == match side {
                Side::Bid => (u64::MAX - levels[i].key) * 10_000,
                Side::Ask => levels[i].key * 10_000,
            }
            &&& shown[i].1 == amount(levels[i].queue@)
        }),
{
    assert(side_view(levels)[i] == levels[i]@);
    lemma_queue_amount(levels[i].queue@);
}

/// The orders of a well-formed book can be matched.
pub proof fn well_formed_book_can_be_matched(book: OrderBookSim)
    requires
        book.wf(),
    ensures
        can_be_matched(book.bid_side()),
        can_be_matched(book.ask_side()),
{
}

} // verus!
