//! What holds of the order book as a whole.

use crate::order_book::{
    all_open, can_be_matched, crosses, depth_of, distinct_ids, filled_by, first_filled, ids_of,
    is_crossed, key_of, lemma_first_filled_can_be_matched, lemma_first_filled_count,
    lemma_limit_submitted_wf, lemma_market_submitted_wf, lemma_order_cancelled_wf, lemma_place,
    lemma_position, lemma_settle_wf, lemma_wf_open, lesser, level_price, limit_submitted,
    market_price, market_submitted, match_levels, match_queue, opposite, order_cancelled,
    order_count, order_wf, orders_matched, place_of, position_of, queue_qty, settle, side_orders,
    side_wf, trade_of, with_order, without_order, LimitOrder, OrderBookSim, OrderId, PriceLevel,
    Side, Trade,
};
use vstd::prelude::*;

verus! {

/// The quantity of trades.
pub open spec fn trades_qty(trades: Seq<Trade>) -> int
    decreases trades.len(),
{
    if trades.len() == 0 {
        0
    } else {
        trades[0].qty + trades_qty(trades.skip(1))
    }
}

/// The quantity that remains on a side of the book.
pub open spec fn side_qty(levels: Seq<PriceLevel>) -> int
    decreases levels.len(),
{
    if levels.len() == 0 {
        0
    } else {
        queue_qty(levels[0].1) + side_qty(levels.skip(1))
    }
}

/// How matching went through orders in a given sequence: the trades are with
/// the first of them, one after the other, each for all that was left of the
/// order except perhaps the last, and what rests is the others, untouched.
pub open spec fn in_sequence(
    before: Seq<LimitOrder>,
    after: Seq<LimitOrder>,
    trades: Seq<Trade>,
    id: OrderId,
    now_ms: u64,
) -> bool {
    let n = before.len() - after.len();
    &&& 0 <= n <= trades.len() <= n + 1
    &&& trades.len() <= before.len()
    &&& forall|k: int|
        0 <= k < trades.len() ==> #[trigger] trades[k] == trade_of(
            id,
            before[k],
            trades[k].qty as int,
            now_ms,
        )
    &&& forall|k: int| 0 <= k < n ==> (#[trigger] trades[k]).qty == before[k].remaining_qty
    &&& trades.len() == n ==> after == before.skip(n)
    &&& trades.len() == n + 1 ==> {
        &&& 0 < trades[n].qty < before[n].remaining_qty
        &&& after == before.skip(n).update(0, filled_by(before[n], trades[n].qty as int))
    }
}

proof fn lemma_trades_qty_concat(a: Seq<Trade>, b: Seq<Trade>)
    ensures
        trades_qty(a + b) == trades_qty(a) + trades_qty(b),
    decreases a.len(),
{
    if a.len() == 0 {
        assert(a + b =~= b);
    } else {
        lemma_trades_qty_concat(a.skip(1), b);
        assert((a + b).skip(1) =~= a.skip(1) + b);
    }
}

pub(crate) proof fn lemma_queue_in_sequence(
    queue: Seq<LimitOrder>,
    wanted: int,
    id: OrderId,
    now_ms: u64,
)
    requires
        forall|i: int| 0 <= i < queue.len() ==> (#[trigger] queue[i]).remaining_qty > 0,
        wanted <= i128::MAX,
    ensures
        ({
            let m = match_queue(queue, wanted, id, now_ms);
            &&& in_sequence(queue, m.resting, m.trades, id, now_ms)
            &&& trades_qty(m.trades) == wanted - m.wanted
            &&& m.wanted > 0 ==> m.resting.len() == 0
            &&& wanted > 0 ==> 0 <= m.wanted < wanted || queue.len() == 0
            &&& m.trades.len() > queue.len() - m.resting.len() ==> m.wanted == 0
            &&& m.wanted <= wanted
        }),
    decreases queue.len(),
{
    let m = match_queue(queue, wanted, id, now_ms);
    if wanted <= 0 || queue.len() == 0 {
        assert(queue.skip(0) =~= queue);
    } else {
        let o = queue[0];
        assert(o.remaining_qty > 0);
        let fill = lesser(wanted, o.remaining_qty as int);
        let tail = queue.skip(1);
        if o.remaining_qty <= fill {
            assert forall|i: int| 0 <= i < tail.len() implies (
            #[trigger] tail[i]).remaining_qty > 0 by {
                assert(queue[i + 1].remaining_qty > 0);
            }
            lemma_queue_in_sequence(tail, wanted - fill, id, now_ms);
            let rest = match_queue(tail, wanted - fill, id, now_ms);
            let n = tail.len() - rest.resting.len();
            assert(m.trades.skip(1) =~= rest.trades);
            assert forall|k: int| 0 <= k < m.trades.len() implies #[trigger] m.trades[k]
                == trade_of(id, queue[k], m.trades[k].qty as int, now_ms) by {
                if k > 0 {
                    assert(rest.trades[k - 1] == trade_of(
                        id,
                        tail[k - 1],
                        rest.trades[k - 1].qty as int,
                        now_ms,
                    ));
                }
            }
            assert forall|k: int| 0 <= k < n + 1 implies (#[trigger] m.trades[k]).qty
                == queue[k].remaining_qty by {
                if k > 0 {
                    assert(rest.trades[k - 1].qty == tail[k - 1].remaining_qty);
                }
            }
            assert(tail.skip(n) =~= queue.skip(n + 1));
            if rest.trades.len() == n + 1 {
                assert(m.trades[n + 1] == rest.trades[n]);
            }
        } else {
            assert(m.trades.skip(1) =~= Seq::<Trade>::empty());
            assert(trades_qty(m.trades.skip(1)) == 0);
            assert(m.resting =~= queue.skip(0).update(0, filled_by(o, fill)));
        }
    }
}

/// Price-time priority: matching goes through the resting orders of the other
/// side best price first, and at one price oldest first; each trade is at the
/// price of the resting order, and an order is filled whole before the next one
/// is touched.
pub proof fn matching_follows_priority(
    levels: Seq<PriceLevel>,
    side: Side,
    price: int,
    wanted: int,
    id: OrderId,
    now_ms: u64,
)
    requires
        all_open(levels),
        wanted <= i128::MAX,
    ensures
        ({
            let m = match_levels(levels, side, price, wanted, id, now_ms);
            in_sequence(side_orders(levels), side_orders(m.resting), m.trades, id, now_ms)
        }),
    decreases levels.len(),
{
    let m = match_levels(levels, side, price, wanted, id, now_ms);
    let before = side_orders(levels);
    if wanted <= 0 || levels.len() == 0 || !crosses(side, price, levels[0].0) {
        assert(before.skip(0) =~= before);
    } else {
        let queue = levels[0].1;
        let tail = levels.skip(1);
        lemma_levels_open(levels);
        lemma_queue_in_sequence(queue, wanted, id, now_ms);
        let first = match_queue(queue, wanted, id, now_ms);
        if first.resting.len() == 0 {
            matching_follows_priority(tail, side, price, first.wanted, id, now_ms);
            let rest = match_levels(tail, side, price, first.wanted, id, now_ms);
            let after = side_orders(rest.resting);
            let behind = side_orders(tail);
            let n = behind.len() - after.len();
            assert(before == queue + behind);
            assert(first.trades.len() == queue.len());
            assert forall|k: int| 0 <= k < m.trades.len() implies #[trigger] m.trades[k]
                == trade_of(id, before[k], m.trades[k].qty as int, now_ms) by {
                if k < queue.len() {
                    assert(m.trades[k] == first.trades[k]);
                } else {
                    assert(m.trades[k] == rest.trades[k - queue.len()]);
                }
            }
            assert forall|k: int| 0 <= k < queue.len() + n implies (#[trigger] m.trades[k]).qty
                == before[k].remaining_qty by {
                if k < queue.len() {
                    assert(m.trades[k] == first.trades[k]);
                } else {
                    assert(m.trades[k] == rest.trades[k - queue.len()]);
                }
            }
            assert(before.skip(queue.len() + n) =~= behind.skip(n));
            if rest.trades.len() == n + 1 {
                assert(m.trades[queue.len() + n] == rest.trades[n]);
            }
        } else {
            let n = queue.len() - first.resting.len();
            let behind = side_orders(tail);
            assert(m.resting.skip(1) =~= tail);
            assert(side_orders(m.resting) == first.resting + behind);
            assert(before == queue + behind);
            assert(before.skip(n) =~= queue.skip(n) + behind);
            if first.trades.len() == n + 1 {
                assert(side_orders(m.resting) =~= before.skip(n).update(
                    0,
                    filled_by(before[n], first.trades[n].qty as int),
                ));
            }
        }
    }
}

pub(crate) proof fn lemma_levels_open(levels: Seq<PriceLevel>)
    requires
        all_open(levels),
        levels.len() > 0,
    ensures
        all_open(levels.skip(1)),
        forall|i: int| 0 <= i < levels[0].1.len() ==> (#[trigger] levels[0].1[i]).remaining_qty > 0,
{
    assert forall|i: int, j: int|
        0 <= i < levels.skip(1).len() && 0 <= j < levels.skip(1)[i].1.len() implies (
    #[trigger] levels.skip(1)[i].1[j]).remaining_qty > 0 by {
        assert(levels[i + 1].1[j].remaining_qty > 0);
    }
}

/// The quantity that an incoming order gets is the quantity of its trades.
pub proof fn order_gets_what_it_trades(
    levels: Seq<PriceLevel>,
    side: Side,
    price: int,
    wanted: int,
    id: OrderId,
    now_ms: u64,
)
    requires
        all_open(levels),
        wanted <= i128::MAX,
    ensures
        ({
            let m = match_levels(levels, side, price, wanted, id, now_ms);
            &&& trades_qty(m.trades) == wanted - m.wanted
            &&& wanted >= 0 ==> 0 <= m.wanted <= wanted
        }),
    decreases levels.len(),
{
    if wanted <= 0 || levels.len() == 0 || !crosses(side, price, levels[0].0) {
    } else {
        lemma_levels_open(levels);
        lemma_queue_in_sequence(levels[0].1, wanted, id, now_ms);
        let first = match_queue(levels[0].1, wanted, id, now_ms);
        if first.resting.len() == 0 {
            order_gets_what_it_trades(levels.skip(1), side, price, first.wanted, id, now_ms);
            let rest = match_levels(levels.skip(1), side, price, first.wanted, id, now_ms);
            lemma_trades_qty_concat(first.trades, rest.trades);
        }
    }
}

pub(crate) proof fn lemma_queue_qty_front(queue: Seq<LimitOrder>)
    requires
        queue.len() > 0,
    ensures
        queue_qty(queue) == queue[0].remaining_qty + queue_qty(queue.skip(1)),
    decreases queue.len(),
{
    if queue.len() == 1 {
        assert(queue.drop_last() =~= Seq::<LimitOrder>::empty());
        assert(queue.skip(1) =~= Seq::<LimitOrder>::empty());
        reveal_with_fuel(queue_qty, 2);
    } else {
        lemma_queue_qty_front(queue.drop_last());
        assert(queue.drop_last().skip(1) =~= queue.skip(1).drop_last());
    }
}

proof fn lemma_queue_qty_conserved(
    queue: Seq<LimitOrder>,
    wanted: int,
    id: OrderId,
    now_ms: u64,
)
    requires
        forall|i: int| 0 <= i < queue.len() ==> (#[trigger] queue[i]).remaining_qty > 0,
    ensures
        ({
            let m = match_queue(queue, wanted, id, now_ms);
            queue_qty(queue) - queue_qty(m.resting) == wanted - m.wanted
        }),
    decreases queue.len(),
{
    if wanted > 0 && queue.len() > 0 {
        let o = queue[0];
        assert(o.remaining_qty > 0);
        let fill = lesser(wanted, o.remaining_qty as int);
        let tail = queue.skip(1);
        lemma_queue_qty_front(queue);
        if o.remaining_qty <= fill {
            assert forall|i: int| 0 <= i < tail.len() implies (
            #[trigger] tail[i]).remaining_qty > 0 by {
                assert(queue[i + 1].remaining_qty > 0);
            }
            lemma_queue_qty_conserved(tail, wanted - fill, id, now_ms);
        } else {
            let m = match_queue(queue, wanted, id, now_ms);
            lemma_queue_qty_front(m.resting);
            assert(m.resting.skip(1) =~= tail);
        }
    }
}

/// What an incoming order gets is what the resting orders give.
pub proof fn book_gives_what_the_order_gets(
    levels: Seq<PriceLevel>,
    side: Side,
    price: int,
    wanted: int,
    id: OrderId,
    now_ms: u64,
)
    requires
        all_open(levels),
        wanted <= i128::MAX,
    ensures
        ({
            let m = match_levels(levels, side, price, wanted, id, now_ms);
            side_qty(levels) - side_qty(m.resting) == wanted - m.wanted
        }),
    decreases levels.len(),
{
    if wanted <= 0 || levels.len() == 0 || !crosses(side, price, levels[0].0) {
    } else {
        lemma_levels_open(levels);
        lemma_queue_in_sequence(levels[0].1, wanted, id, now_ms);
        lemma_queue_qty_conserved(levels[0].1, wanted, id, now_ms);
        let first = match_queue(levels[0].1, wanted, id, now_ms);
        if first.resting.len() == 0 {
            assert(queue_qty(first.resting) == 0);
            book_gives_what_the_order_gets(levels.skip(1), side, price, first.wanted, id, now_ms);
        } else {
            let m = match_levels(levels, side, price, wanted, id, now_ms);
            assert(m.resting.skip(1) =~= levels.skip(1));
        }
    }
}

/// An incoming order that is left with something unfilled leaves no level that
/// it could still trade with.
pub proof fn unfilled_order_exhausts_its_price(
    levels: Seq<PriceLevel>,
    side: Side,
    price: int,
    wanted: int,
    id: OrderId,
    now_ms: u64,
)
    requires
        all_open(levels),
        wanted <= i128::MAX,
    ensures
        ({
            let m = match_levels(levels, side, price, wanted, id, now_ms);
            m.wanted > 0 && m.resting.len() > 0 ==> !crosses(side, price, m.resting[0].0)
        }),
    decreases levels.len(),
{
    if wanted <= 0 || levels.len() == 0 || !crosses(side, price, levels[0].0) {
    } else {
        lemma_levels_open(levels);
        lemma_queue_in_sequence(levels[0].1, wanted, id, now_ms);
        let first = match_queue(levels[0].1, wanted, id, now_ms);
        if first.resting.len() == 0 {
            unfilled_order_exhausts_its_price(
                levels.skip(1),
                side,
                price,
                first.wanted,
                id,
                now_ms,
            );
        }
    }
}

/// Whether the best price of a side reaches the best price of the other.
pub open spec fn sides_cross(side: Side, own: Seq<PriceLevel>, other: Seq<PriceLevel>) -> bool {
    match side {
        Side::Bid => is_crossed(own, other),
        Side::Ask => is_crossed(other, own),
    }
}

/// What matching leaves of a side starts with a level of the side, and no better
/// than the side did.
proof fn lemma_best_level_kept(
    levels: Seq<PriceLevel>,
    side: Side,
    price: int,
    wanted: int,
    id: OrderId,
    now_ms: u64,
)
    requires
        forall|i: int, j: int| 0 <= i < j < levels.len() ==> levels[i].0 < levels[j].0,
    ensures
        ({
            let m = match_levels(levels, side, price, wanted, id, now_ms);
            m.resting.len() > 0 ==> {
                &&& levels.len() > 0
                &&& m.resting[0].0 >= levels[0].0
                &&& exists|i: int|
                    0 <= i < levels.len() && m.resting[0].0 == (#[trigger] levels[i]).0
            }
        }),
    decreases levels.len(),
{
    if wanted <= 0 || levels.len() == 0 || !crosses(side, price, levels[0].0) {
    } else {
        let first = match_queue(levels[0].1, wanted, id, now_ms);
        if first.resting.len() == 0 {
            lemma_best_level_kept(levels.skip(1), side, price, first.wanted, id, now_ms);
            let rest = match_levels(levels.skip(1), side, price, first.wanted, id, now_ms);
            if rest.resting.len() > 0 {
                let i = choose|i: int|
                    0 <= i < levels.skip(1).len() && rest.resting[0].0 == (
                    #[trigger] levels.skip(1)[i]).0;
                assert(levels[i + 1].0 == rest.resting[0].0);
            }
        }
    }
}

/// A price on the grid of the book is the price of its level.
pub proof fn grid_price_is_level_price(price: int, side: Side)
    requires
        price % 10_000 == 0,
        0 <= price <= u64::MAX * 10_000,
    ensures
        0 <= key_of(price, side) <= u64::MAX,
        level_price(key_of(price, side) as u64, side) == price,
{
}

/// Whether a level of the other side lies between the price of an order and the
/// price of the level where it would rest: the order cannot trade with it, and
/// would yet rest at a price that reaches it.
pub open spec fn is_between(side: Side, price: int, key: u64) -> bool {
    let own = level_price(key_of(price, side) as u64, side);
    match side {
        Side::Bid => price < level_price(key, Side::Ask) <= own,
        Side::Ask => own <= level_price(key, Side::Bid) < price,
    }
}

/// Whether no level of the other side lies between the price of an order and
/// the price of the level where it would rest.
pub open spec fn rests_clear(side: Side, price: int, other: Seq<PriceLevel>) -> bool {
    forall|i: int| 0 <= i < other.len() ==> !is_between(side, price, (#[trigger] other[i]).0)
}

/// An order at a price on the grid of the book rests clear of the other side,
/// whatever stands there. So does a bid at any other price that is not negative,
/// and an ask at a negative price.
pub proof fn grid_price_rests_clear(side: Side, price: int, other: Seq<PriceLevel>)
    requires
        match side {
            Side::Bid => 0 <= price,
            Side::Ask => price < 0 || (price % 10_000 == 0 && price <= u64::MAX * 10_000),
        },
    ensures
        rests_clear(side, price, other),
{
}

/// Submitting an order that would rest clear of the other side leaves a book
/// that was not crossed uncrossed: it trades with every level that it reaches
/// before the rest of it rests.
pub proof fn submitting_leaves_the_book_uncrossed(
    own: Seq<PriceLevel>,
    other: Seq<PriceLevel>,
    side: Side,
    price: int,
    qty: int,
    now_ms: u64,
    o: LimitOrder,
    next_id: u64,
)
    requires
        side_wf(own, side, next_id),
        side_wf(other, opposite(side), next_id),
        !sides_cross(side, own, other),
        rests_clear(side, price, other),
        qty <= i128::MAX,
    ensures
        ({
            let m = match_levels(other, side, price, qty, o.id, now_ms);
            let key = key_of(price, side) as u64;
            let rested = if m.wanted > 0 {
                with_order(own, key, o)
            } else {
                own
            };
            !sides_cross(side, rested, m.resting)
        }),
{
    let m = match_levels(other, side, price, qty, o.id, now_ms);
    let key = key_of(price, side) as u64;
    lemma_best_level_kept(other, side, price, qty, o.id, now_ms);
    if m.wanted > 0 {
        lemma_wf_open(other, opposite(side), next_id);
        unfilled_order_exhausts_its_price(other, side, price, qty, o.id, now_ms);
        lemma_place(own, key);
        let rested = with_order(own, key, o);
        assert(rested[0].0 == key || (own.len() > 0 && rested[0].0 == own[0].0 && own[0].0 < key));
        if m.resting.len() > 0 {
            let i = choose|i: int| 0 <= i < other.len() && m.resting[0].0 == (#[trigger] other[i]).0;
            assert(!is_between(side, price, other[i].0));
        }
    }
}

/// A call of one of the methods that change the book.
pub enum BookCall {
    /// Submit a limit order.
    Limit { side: Side, price: i128, qty: i128, trader_id: Seq<char>, timestamp_ms: u64 },
    /// Submit a market order.
    Market { side: Side, qty: i128, timestamp_ms: u64 },
    /// Run the matching engine.
    Match { now_ms: u64 },
    /// Cancel an order.
    Cancel { id: OrderId, side: Side },
}

/// What a call does to the book.
pub open spec fn book_called(before: OrderBookSim, call: BookCall, after: OrderBookSim) -> bool {
    match call {
        BookCall::Limit { side, price, qty, trader_id, timestamp_ms } => limit_submitted(
            before,
            after,
            side,
            price as int,
            qty as int,
            trader_id,
            timestamp_ms,
        ),
        BookCall::Market { side, qty, timestamp_ms } => market_submitted(
            before,
            after,
            side,
            qty as int,
            timestamp_ms,
        ),
        BookCall::Match { now_ms } => orders_matched(before, after, now_ms),
        BookCall::Cancel { id, side } => order_cancelled(before, after, id, side),
    }
}

/// Whether a call, if it submits a limit order, submits one that would rest
/// clear of the other side.
pub open spec fn call_rests_clear(before: OrderBookSim, call: BookCall) -> bool {
    call matches BookCall::Limit { side, price, .. } ==> rests_clear(
        side,
        price as int,
        before.side(opposite(side)),
    )
}

/// Every call leaves a well-formed book well-formed.
pub proof fn every_call_keeps_the_book_well_formed(
    before: OrderBookSim,
    call: BookCall,
    after: OrderBookSim,
)
    requires
        before.wf(),
        book_called(before, call, after),
    ensures
        after.wf(),
{
    match call {
        BookCall::Limit { side, price, qty, trader_id, timestamp_ms } => {
            lemma_limit_submitted_wf(
                before,
                after,
                side,
                price as int,
                qty as int,
                trader_id,
                timestamp_ms,
            );
        },
        BookCall::Market { side, qty, timestamp_ms } => {
            lemma_market_submitted_wf(before, after, side, qty as int, timestamp_ms);
        },
        BookCall::Match { now_ms } => {
            lemma_settle_wf(before.bid_side(), before.ask_side(), now_ms, before.next_id);
        },
        BookCall::Cancel { id, side } => {
            lemma_order_cancelled_wf(before, after, id, side);
        },
    }
}

/// No call crosses a book that was not crossed, where an order that it submits
/// would rest clear of the other side.
pub proof fn no_call_crosses_the_book(before: OrderBookSim, call: BookCall, after: OrderBookSim)
    requires
        before.wf(),
        !is_crossed(before.bid_side(), before.ask_side()),
        book_called(before, call, after),
        call_rests_clear(before, call),
    ensures
        !is_crossed(after.bid_side(), after.ask_side()),
{
    match call {
        BookCall::Limit { side, price, qty, trader_id, timestamp_ms } => {
            let own = before.side(side);
            let other = before.side(opposite(side));
            let id = before.next_id;
            let m = match_levels(other, side, price as int, qty as int, id, timestamp_ms);
            let key = key_of(price as int, side) as u64;
            let o = if m.wanted > 0 {
                choose|o: LimitOrder|
                    o.id == id && after.side(side) == #[trigger] with_order(own, key, o)
            } else {
                LimitOrder { id, ..arbitrary() }
            };
            submitting_leaves_the_book_uncrossed(
                own,
                other,
                side,
                price as int,
                qty as int,
                timestamp_ms,
                o,
                id,
            );
        },
        BookCall::Market { side, qty, timestamp_ms } => {
            lemma_best_level_kept(
                before.side(opposite(side)),
                side,
                market_price(side),
                qty as int,
                before.next_id,
                timestamp_ms,
            );
        },
        BookCall::Match { now_ms } => {
            uncrossed_book_is_settled(before.bid_side(), before.ask_side(), now_ms);
        },
        BookCall::Cancel { id, side } => {
            lemma_order_cancelled_wf(before, after, id, side);
        },
    }
}

/// Running the matching engine uncrosses a book.
pub proof fn matching_uncrosses_the_book(before: OrderBookSim, now_ms: u64, after: OrderBookSim)
    requires
        before.wf(),
        orders_matched(before, after, now_ms),
    ensures
        !is_crossed(after.bid_side(), after.ask_side()),
{
    lemma_settle_wf(before.bid_side(), before.ask_side(), now_ms, before.next_id);
}

/// Whatever is done to a book from the time when it was empty, it stays
/// well-formed, and it is never crossed where the orders submitted would rest
/// clear of the other side, as they do at prices on the grid.
///
/// `books` are the book at first and after each of the `calls`.
pub proof fn book_is_never_crossed(books: Seq<OrderBookSim>, calls: Seq<BookCall>, n: int)
    requires
        books.len() == calls.len() + 1,
        books[0].bid_side().len() == 0,
        books[0].ask_side().len() == 0,
        forall|i: int|
            0 <= i < calls.len() ==> book_called(books[i], #[trigger] calls[i], books[i + 1]),
        0 <= n < books.len(),
    ensures
        books[n].wf(),
        (forall|i: int| 0 <= i < n ==> call_rests_clear(books[i], #[trigger] calls[i]))
            ==> !is_crossed(books[n].bid_side(), books[n].ask_side()),
    decreases n,
{
    if n > 0 {
        book_is_never_crossed(books, calls, n - 1);
        assert(book_called(books[n - 1], calls[n - 1], books[n]));
        every_call_keeps_the_book_well_formed(books[n - 1], calls[n - 1], books[n]);
        if forall|i: int| 0 <= i < n ==> call_rests_clear(books[i], #[trigger] calls[i]) {
            assert(call_rests_clear(books[n - 1], calls[n - 1]));
            no_call_crosses_the_book(books[n - 1], calls[n - 1], books[n]);
        }
    }
}

/// A book that is not crossed is left alone by the matching engine.
pub proof fn uncrossed_book_is_settled(
    bids: Seq<PriceLevel>,
    asks: Seq<PriceLevel>,
    now_ms: u64,
)
    requires
        !is_crossed(bids, asks),
    ensures
        settle(bids, asks, now_ms).bids == bids,
        settle(bids, asks, now_ms).asks == asks,
        settle(bids, asks, now_ms).trades == Seq::<Trade>::empty(),
{
}

proof fn lemma_first_filled_qty(levels: Seq<PriceLevel>, qty: int)
    requires
        levels.len() > 0,
        levels[0].1.len() > 0,
        0 <= qty <= levels[0].1[0].remaining_qty,
    ensures
        side_qty(first_filled(levels, qty)) == side_qty(levels) - qty,
{
    let after = first_filled(levels, qty);
    let queue = levels[0].1;
    lemma_queue_qty_front(queue);
    if queue[0].remaining_qty <= qty && queue.len() == 1 {
        assert(queue.skip(1) =~= Seq::<LimitOrder>::empty());
        assert(queue_qty(queue.skip(1)) == 0);
    } else {
        assert(after.skip(1) =~= levels.skip(1));
        if queue[0].remaining_qty > qty {
            lemma_queue_qty_front(after[0].1);
            assert(after[0].1.skip(1) =~= queue.skip(1));
        }
    }
}

/// The matching engine takes as much from the bids as from the asks: the
/// quantity of its trades.
pub proof fn settling_conserves_quantity(
    bids: Seq<PriceLevel>,
    asks: Seq<PriceLevel>,
    now_ms: u64,
)
    requires
        can_be_matched(bids),
        can_be_matched(asks),
    ensures
        ({
            let s = settle(bids, asks, now_ms);
            &&& side_qty(bids) - side_qty(s.bids) == trades_qty(s.trades)
            &&& side_qty(asks) - side_qty(s.asks) == trades_qty(s.trades)
        }),
    decreases order_count(bids) + order_count(asks),
{
    if is_crossed(bids, asks) {
        let bid = bids[0].1[0];
        let ask = asks[0].1[0];
        assert(bids[0].1.len() > 0 && asks[0].1.len() > 0);
        assert(bids[0].1[0].remaining_qty > 0 && asks[0].1[0].remaining_qty > 0);
        let fill = lesser(bid.remaining_qty as int, ask.remaining_qty as int);
        lemma_first_filled_count(bids, fill);
        lemma_first_filled_count(asks, fill);
        lemma_first_filled_qty(bids, fill);
        lemma_first_filled_qty(asks, fill);
        lemma_first_filled_can_be_matched(bids, fill);
        lemma_first_filled_can_be_matched(asks, fill);
        settling_conserves_quantity(first_filled(bids, fill), first_filled(asks, fill), now_ms);
        let s = settle(bids, asks, now_ms);
        let rest = settle(first_filled(bids, fill), first_filled(asks, fill), now_ms);
        assert(s.trades.skip(1) =~= rest.trades);
    }
}

/// Cancelling takes exactly the order with the ID out of the book, and finds it
/// wherever it stands; afterwards no order has the ID.
pub proof fn cancelled_order_is_gone(levels: Seq<PriceLevel>, id: OrderId)
    requires
        distinct_ids(levels),
    ensures
        match without_order(levels, id) {
            Some(rest) => {
                &&& distinct_ids(rest)
                &&& !ids_of(side_orders(rest)).contains(id)
                &&& exists|p: int|
                    0 <= p < side_orders(levels).len() && side_orders(levels)[p].id == id
                        && side_orders(rest) == #[trigger] side_orders(levels).remove(p)
            },
            None => !ids_of(side_orders(levels)).contains(id),
        },
    decreases levels.len(),
{
    let before = side_orders(levels);
    lemma_without_order_orders(levels, id);
    if let Some(rest) = without_order(levels, id) {
        let after = side_orders(rest);
        let p = choose|p: int|
            0 <= p < before.len() && before[p].id == id && after == #[trigger] before.remove(p);
        let ids = ids_of(before);
        assert(ids_of(after) =~= ids.remove(p));
        assert forall|i: int, j: int|
            0 <= i < ids_of(after).len() && 0 <= j < ids_of(after).len() && i != j implies ids_of(
            after,
        )[i] != ids_of(after)[j] by {
            let a = if i < p { i } else { i + 1 };
            let b = if j < p { j } else { j + 1 };
            assert(ids[a] != ids[b]);
        }
        assert forall|i: int| 0 <= i < ids_of(after).len() implies ids_of(after)[i] != id by {
            let a = if i < p { i } else { i + 1 };
            assert(ids[a] != ids[p]);
        }
    } else {
        assert forall|k: int| 0 <= k < ids_of(before).len() implies ids_of(before)[k] != id by {
            assert(before[k].id != id);
        }
    }
}

proof fn lemma_without_order_orders(levels: Seq<PriceLevel>, id: OrderId)
    ensures
        match without_order(levels, id) {
            Some(rest) => exists|p: int|
                0 <= p < side_orders(levels).len() && side_orders(levels)[p].id == id
                    && side_orders(rest) == #[trigger] side_orders(levels).remove(p),
            None => forall|k: int|
                0 <= k < side_orders(levels).len() ==> (#[trigger] side_orders(levels)[k]).id != id,
        },
    decreases levels.len(),
{
    let before = side_orders(levels);
    if levels.len() > 0 {
        let queue = levels[0].1;
        let tail = levels.skip(1);
        let behind = side_orders(tail);
        lemma_position(queue, id);
        let at = position_of(queue, id);
        if at < queue.len() {
            let rest = without_order(levels, id)->0;
            if queue.remove(at).len() > 0 {
                assert(rest.skip(1) =~= tail);
            }
            assert(before[at].id == id);
            assert(side_orders(rest) =~= before.remove(at));
        } else {
            lemma_without_order_orders(tail, id);
            if let Some(rest) = without_order(tail, id) {
                let p = choose|p: int|
                    0 <= p < behind.len() && behind[p].id == id && side_orders(rest)
                        == #[trigger] behind.remove(p);
                let whole = seq![levels[0]] + rest;
                assert(whole.skip(1) =~= rest);
                assert(before[queue.len() + p].id == id);
                assert(side_orders(whole) =~= before.remove(queue.len() + p));
            } else {
                assert forall|k: int| 0 <= k < before.len() implies (#[trigger] before[k]).id
                    != id by {
                    if k < queue.len() {
                        assert(queue[k].id != id);
                    } else {
                        assert(behind[k - queue.len()].id != id);
                    }
                }
            }
        }
    }
}

proof fn lemma_with_order_qty(levels: Seq<PriceLevel>, key: u64, o: LimitOrder)
    ensures
        side_qty(with_order(levels, key, o)) == side_qty(levels) + o.remaining_qty,
        0 <= place_of(levels, key) <= levels.len(),
    decreases levels.len(),
{
    let after = with_order(levels, key, o);
    if levels.len() == 0 || levels[0].0 > key {
        assert(after =~= seq![(key, seq![o])] + levels);
        assert(after.skip(1) =~= levels);
        assert(seq![o].drop_last() =~= Seq::<LimitOrder>::empty());
        assert(queue_qty(seq![o].drop_last()) == 0);
    } else if levels[0].0 == key {
        assert(after.skip(1) =~= levels.skip(1));
        assert(levels[0].1.push(o).drop_last() =~= levels[0].1);
    } else {
        lemma_with_order_qty(levels.skip(1), key, o);
        assert(after.skip(1) =~= with_order(levels.skip(1), key, o));
        assert(after[0] == levels[0]);
    }
}

proof fn lemma_removed_qty(queue: Seq<LimitOrder>, at: int)
    requires
        0 <= at < queue.len(),
    ensures
        queue_qty(queue.remove(at)) == queue_qty(queue) - queue[at].remaining_qty,
    decreases queue.len(),
{
    if at == queue.len() - 1 {
        assert(queue.remove(at) =~= queue.drop_last());
    } else {
        lemma_removed_qty(queue.drop_last(), at);
        assert(queue.remove(at).drop_last() =~= queue.drop_last().remove(at));
    }
}

proof fn lemma_without_order_qty(levels: Seq<PriceLevel>, id: OrderId)
    requires
        all_open(levels),
    ensures
        without_order(levels, id) matches Some(rest) ==> side_qty(rest) < side_qty(levels),
    decreases levels.len(),
{
    if levels.len() > 0 {
        let queue = levels[0].1;
        let at = position_of(queue, id);
        lemma_levels_open(levels);
        lemma_position(queue, id);
        if at < queue.len() {
            let left = queue.remove(at);
            lemma_removed_qty(queue, at);
            assert(queue[at].remaining_qty > 0);
            if left.len() > 0 {
                let after = levels.update(0, (levels[0].0, left));
                assert(after.skip(1) =~= levels.skip(1));
            } else {
                assert(queue_qty(left) == 0);
            }
        } else {
            lemma_without_order_qty(levels.skip(1), id);
            if let Some(rest) = without_order(levels.skip(1), id) {
                assert((seq![levels[0]] + rest).skip(1) =~= rest);
            }
        }
    }
}

/// The quantity that a call submits to a side of the book.
pub open spec fn submitted_to(side: Side, call: BookCall) -> int {
    match call {
        BookCall::Limit { side: s, qty, .. } => if s == side && qty > 0 {
            qty as int
        } else {
            0
        },
        _ => 0,
    }
}

/// The quantity that calls submit to a side of the book.
pub open spec fn all_submitted_to(side: Side, calls: Seq<BookCall>, n: int) -> int
    decreases n,
{
    if n <= 0 {
        0
    } else {
        all_submitted_to(side, calls, n - 1) + submitted_to(side, calls[n - 1])
    }
}

/// A call puts no more on a side of a well-formed book than it submits there.
pub proof fn call_adds_what_it_submits_at_most(
    before: OrderBookSim,
    call: BookCall,
    after: OrderBookSim,
    side: Side,
)
    requires
        before.wf(),
        book_called(before, call, after),
    ensures
        side_qty(after.side(side)) <= side_qty(before.side(side)) + submitted_to(side, call),
{
    let id = before.next_id;
    let levels = before.side(side);
    lemma_wf_open(levels, side, id);
    match call {
        BookCall::Limit { side: s, price, qty, trader_id, timestamp_ms } => {
            let other = before.side(opposite(s));
            let m = match_levels(other, s, price as int, qty as int, id, timestamp_ms);
            lemma_wf_open(other, opposite(s), id);
            order_gets_what_it_trades(other, s, price as int, qty as int, id, timestamp_ms);
            book_gives_what_the_order_gets(other, s, price as int, qty as int, id, timestamp_ms);
            lemma_wanted(other, s, price as int, qty as int, id, timestamp_ms);
            if s == side && m.wanted > 0 {
                let key = key_of(price as int, s) as u64;
                let o = choose|o: LimitOrder|
                    o.remaining_qty == m.wanted && after.side(s) == #[trigger] with_order(
                        levels,
                        key,
                        o,
                    );
                lemma_with_order_qty(levels, key, o);
            }
        },
        BookCall::Market { side: s, qty, timestamp_ms } => {
            let other = before.side(opposite(s));
            lemma_wf_open(other, opposite(s), id);
            book_gives_what_the_order_gets(
                other,
                s,
                market_price(s),
                qty as int,
                id,
                timestamp_ms,
            );
            lemma_wanted(other, s, market_price(s), qty as int, id, timestamp_ms);
        },
        BookCall::Match { now_ms } => {
            lemma_wf_open(before.bid_side(), Side::Bid, id);
            lemma_wf_open(before.ask_side(), Side::Ask, id);
            settling_conserves_quantity(before.bid_side(), before.ask_side(), now_ms);
            lemma_settled_trades(before.bid_side(), before.ask_side(), now_ms);
        },
        BookCall::Cancel { id: cancelled, side: s } => {
            if s == side {
                lemma_without_order_qty(levels, cancelled);
            }
        },
    }
}

/// Matching does not add to what is wanted.
proof fn lemma_wanted(
    levels: Seq<PriceLevel>,
    side: Side,
    price: int,
    wanted: int,
    id: OrderId,
    now_ms: u64,
)
    requires
        all_open(levels),
        wanted <= i128::MAX,
    ensures
        match_levels(levels, side, price, wanted, id, now_ms).wanted <= wanted,
{
    if wanted >= 0 {
        order_gets_what_it_trades(levels, side, price, wanted, id, now_ms);
    }
}

/// The quantity of the trades of the matching engine is not negative.
proof fn lemma_settled_trades(bids: Seq<PriceLevel>, asks: Seq<PriceLevel>, now_ms: u64)
    requires
        can_be_matched(bids),
        can_be_matched(asks),
    ensures
        trades_qty(settle(bids, asks, now_ms).trades) >= 0,
    decreases order_count(bids) + order_count(asks),
{
    if is_crossed(bids, asks) {
        assert(bids[0].1.len() > 0 && asks[0].1.len() > 0);
        assert(bids[0].1[0].remaining_qty > 0 && asks[0].1[0].remaining_qty > 0);
        let fill = lesser(
            bids[0].1[0].remaining_qty as int,
            asks[0].1[0].remaining_qty as int,
        );
        let (b, a) = (first_filled(bids, fill), first_filled(asks, fill));
        lemma_first_filled_count(bids, fill);
        lemma_first_filled_count(asks, fill);
        lemma_first_filled_can_be_matched(bids, fill);
        lemma_first_filled_can_be_matched(asks, fill);
        lemma_settled_trades(b, a, now_ms);
        let s = settle(bids, asks, now_ms);
        assert(s.trades.skip(1) =~= settle(b, a, now_ms).trades);
    }
}

/// A book that was empty at first holds no more on a side than was submitted
/// there.
///
/// `books` are the book at first and after each of the `calls`.
pub proof fn book_holds_what_was_submitted_at_most(
    books: Seq<OrderBookSim>,
    calls: Seq<BookCall>,
    n: int,
    side: Side,
)
    requires
        books.len() == calls.len() + 1,
        books[0].bid_side().len() == 0,
        books[0].ask_side().len() == 0,
        forall|i: int|
            0 <= i < calls.len() ==> book_called(books[i], #[trigger] calls[i], books[i + 1]),
        0 <= n < books.len(),
    ensures
        side_qty(books[n].side(side)) <= all_submitted_to(side, calls, n),
    decreases n,
{
    if n > 0 {
        book_holds_what_was_submitted_at_most(books, calls, n - 1, side);
        book_is_never_crossed(books, calls, n - 1);
        assert(book_called(books[n - 1], calls[n - 1], books[n]));
        call_adds_what_it_submits_at_most(books[n - 1], calls[n - 1], books[n], side);
    }
}

/// A snapshot of a side shows its best levels: as many as there are and are asked
/// for, from the best price on, each price worse than the one before, each with
/// all that remains there, which is something. A deeper snapshot begins with it.
pub proof fn snapshot_shows_the_best_levels(
    levels: Seq<PriceLevel>,
    side: Side,
    next_id: u64,
    depth: int,
)
    requires
        side_wf(levels, side, next_id),
        depth >= 0,
    ensures
        ({
            let shown = depth_of(levels, side, depth);
            &&& shown.len() == lesser(depth, levels.len() as int)
            &&& shown == depth_of(levels, side, depth + 1).take(shown.len() as int)
            &&& shown.len() > 0 ==> shown[0].0 == level_price(levels[0].0, side)
            &&& forall|i: int, j: int|
                0 <= i < j < shown.len() ==> match side {
                    Side::Bid => shown[i].0 > shown[j].0,
                    Side::Ask => shown[i].0 < shown[j].0,
                }
            &&& forall|i: int|
                0 <= i < shown.len() ==> (#[trigger] shown[i]).1 == queue_qty(levels[i].1)
                    && shown[i].1 > 0
        }),
{
    let shown = depth_of(levels, side, depth);
    assert(shown =~= depth_of(levels, side, depth + 1).take(shown.len() as int));
    assert forall|i: int| 0 <= i < shown.len() implies (#[trigger] shown[i]).1 == queue_qty(
        levels[i].1,
    ) && shown[i].1 > 0 by {
        let queue = levels[i].1;
        assert forall|j: int| 0 <= j < queue.len() implies (
        #[trigger] queue[j]).remaining_qty > 0 by {
            assert(order_wf(levels[i].1[j], levels[i].0, side, next_id));
        }
        assert(queue.len() > 0);
        lemma_open_queue_qty(queue);
    }
    assert forall|i: int, j: int| 0 <= i < j < shown.len() implies match side {
        Side::Bid => shown[i].0 > shown[j].0,
        Side::Ask => shown[i].0 < shown[j].0,
    } by {
        assert(levels[i].0 < levels[j].0);
    }
}

/// Something remains of open orders.
proof fn lemma_open_queue_qty(queue: Seq<LimitOrder>)
    requires
        forall|i: int| 0 <= i < queue.len() ==> (#[trigger] queue[i]).remaining_qty > 0,
    ensures
        queue_qty(queue) >= 0,
        queue.len() > 0 ==> queue_qty(queue) > 0,
    decreases queue.len(),
{
    if queue.len() > 0 {
        lemma_open_queue_qty(queue.drop_last());
        assert(queue[queue.len() - 1].remaining_qty > 0);
    }
}

} // verus!
