//! What the exchange model without partial fills promises of orders and market events.
use vstd::prelude::*;

use crate::assettype::AssetType;
use crate::decimal::Decimal;
use crate::decimal::exact_difference;
use crate::decimal::exact_sum;
use crate::depth::Book;
use crate::depth::MarketDepth;
use crate::depth::quantity;
use crate::error::BacktestError;
use crate::lifecycle::NewOrder;
use crate::lifecycle::OrderFill;
use crate::lifecycle::OrderModel;
use crate::lifecycle::OrderRequest;
use crate::lifecycle::OrderStatus;
use crate::lifecycle::OrderUpdate;
use crate::lifecycle::RequestOutcome;
use crate::lifecycle::UpdateModel;
use crate::models::fee::FeeModel;
use crate::models::latency::LatencyModel;
use crate::models::queue::OrderTerms;
use crate::models::queue::QueueModel;
use crate::processor::market_flags::is_exchange_level;
use crate::processor::market_flags::is_exchange_trade;
use crate::processor::market_flags::lemma_exchange_flags;
use crate::processor::market_flags::of_side;
use crate::processor::nopartialfillexchange::Action;
use crate::processor::nopartialfillexchange::Desk;
use crate::processor::nopartialfillexchange::Ledger;
use crate::processor::nopartialfillexchange::Placed;
use crate::processor::nopartialfillexchange::RestingModel;
use crate::processor::nopartialfillexchange::action_of;
use crate::processor::nopartialfillexchange::acted;
use crate::processor::nopartialfillexchange::answered;
use crate::processor::nopartialfillexchange::modified;
use crate::processor::nopartialfillexchange::orders_ok;
use crate::processor::nopartialfillexchange::order_filled;
use crate::processor::nopartialfillexchange::placed;
use crate::processor::nopartialfillexchange::processed;
use crate::processor::nopartialfillexchange::requeued;
use crate::processor::nopartialfillexchange::swept;
use crate::processor::price_match::resolved_price;
use crate::processor::price_match::rule_satisfied;
use crate::processor::venue::Trigger;
use crate::processor::venue::Venue;
use crate::processor::venue::improved;
use crate::rules::TickSizeError;
use crate::rules::tick_size_at;
use crate::sorted_map::Ranked;
use crate::sorted_map::holds;
use crate::sorted_map::lemma_inserted;
use crate::sorted_map::lemma_removed;
use crate::sorted_map::lookup;
use crate::sorted_map::removed;
use crate::state::filled_values;
use crate::types::BUY_EVENT;
use crate::types::DEPTH_CLEAR_EVENT;
use crate::types::DEPTH_EVENT;
use crate::types::DEPTH_SNAPSHOT_EVENT;
use crate::types::EXCH_EVENT;
use crate::types::Event;
use crate::types::OrdType;
use crate::types::OrderId;
use crate::types::PriceMatch;
use crate::types::SELL_EVENT;
use crate::types::Side;
use crate::types::StateValues;
use crate::types::TRADE_EVENT;
use crate::types::TimeInForce;
use crate::types::kind_of;

verus! {

/// What a queue model is told of an order.
pub open spec fn terms_in_queue(order: OrderModel) -> OrderTerms {
    OrderTerms { order_id: order.order_id, side: order.side, price: order.price }
}

/// Whether a report says that a resting order was filled at a time with all that was left of it, at
/// its own price, as a maker. Where nothing is rounded, it also says that the order is filled.
pub open spec fn reports_whole_fill(report: UpdateModel, order: OrderModel, timestamp: i64) -> bool {
    &&& report.order_id == order.order_id
    &&& report.exch_timestamp == timestamp
    &&& report.request_result is None
    &&& report.fills.len() == 1
    &&& report.fills[0].price == order.price
    &&& Some(report.fills[0].qty) == order.qty.difference(order.filled)
    &&& report.fills[0].is_maker
    &&& report.fills[0].exch_timestamp == timestamp
    &&& report.state matches Some(state) && state.qty == order.qty && state.price == order.price && (
    forall|total: Decimal|
        exact_difference(order.qty, order.filled, report.fills[0].qty) && #[trigger] exact_sum(
            order.filled,
            report.fills[0].qty,
            total,
        ) ==> state.status == OrderStatus::Filled)
}

/// Whether one of the messages from a place on reports that an order was filled whole.
pub open spec fn whole_fill_reported(
    messages: Seq<(UpdateModel, i64)>,
    from: int,
    order: OrderModel,
    timestamp: i64,
) -> bool {
    exists|k: int|
        from <= k < messages.len() && reports_whole_fill(
            (#[trigger] messages[k]).0,
            order,
            timestamp,
        )
}

/// Whether an identifier is none of those of resting orders.
pub open spec fn no_longer_rests<S>(orders: Seq<(OrderId, RestingModel<S>)>, id: OrderId) -> bool {
    forall|k: int| 0 <= k < orders.len() ==> (#[trigger] orders[k]).0 != id
}

/// What a sweep of the orders does to each of them.
#[verifier::spinoff_prover]
#[verifier::rlimit(60)]
proof fn lemma_swept<
    AT: AssetType,
    LM: LatencyModel<OrderRequest, OrderUpdate>,
    QM: QueueModel<MD>,
    MD: MarketDepth,
    FM: FeeModel,
>(
    venue: Venue<AT, FM, QM>,
    book: Book,
    trigger: Trigger,
    timestamp: i64,
    orders: Seq<(OrderId, RestingModel<QM::State>)>,
    desk: Desk<QM::State, LM>,
    i: int,
)
    requires
        0 <= i < orders.len(),
        forall|a: int, b: int|
            0 <= a < b < orders.len() ==> (#[trigger] orders[a]).0 != (#[trigger] orders[b]).0,
        swept::<AT, LM, QM, MD, FM>(venue, book, trigger, timestamp, orders, desk) is Ok,
    ensures
        ({
            let after = swept::<AT, LM, QM, MD, FM>(
                venue,
                book,
                trigger,
                timestamp,
                orders,
                desk,
            )->Ok_0;
            let resting = orders[i].1;
            &&& desk.to_local.len() <= after.to_local.len()
            &&& after.to_local.take(desk.to_local.len() as int) =~= desk.to_local
            &&& forall|k: int|
                0 <= k < after.orders.len() ==> exists|j: int|
                    0 <= j < orders.len() && (#[trigger] orders[j]).0 == (
                    #[trigger] after.orders[k]).0 && orders[j].1.order == after.orders[k].1.order
            &&& match action_of::<QM, MD>(venue.queue_model, book, trigger, resting) {
                None => false,
                Some(Action::Keep) => after.orders.contains(orders[i]),
                Some(Action::Requeue(queue_state)) => after.orders.contains(
                    (orders[i].0, RestingModel { queue_state, ..resting }),
                ),
                Some(Action::Fill) => {
                    &&& no_longer_rests(after.orders, orders[i].0)
                    &&& whole_fill_reported(
                        after.to_local,
                        desk.to_local.len() as int,
                        resting.order,
                        timestamp,
                    )
                },
            }
        }),
    decreases orders.len(),
{
    let front = orders.drop_last();
    let n = orders.len() - 1;
    let m = desk.to_local.len() as int;
    let before = swept::<AT, LM, QM, MD, FM>(
        venue,
        book,
        trigger,
        timestamp,
        front,
        desk,
    )->Ok_0;
    let after = swept::<AT, LM, QM, MD, FM>(
        venue,
        book,
        trigger,
        timestamp,
        orders,
        desk,
    )->Ok_0;
    let last = orders[n];
    assert(last == orders.last());
    assert forall|a: int| 0 <= a < front.len() implies front[a] == orders[a] by {}
    if front.len() > 0 {
        lemma_swept::<AT, LM, QM, MD, FM>(
            venue,
            book,
            trigger,
            timestamp,
            front,
            desk,
            if i < n {
                i
            } else {
                0
            },
        );
    } else {
        assert(front =~= Seq::empty());
        assert(before.to_local.take(m) =~= desk.to_local);
    }
    assert(before.to_local.len() <= after.to_local.len());
    assert(forall|k: int|
        0 <= k < before.to_local.len() ==> after.to_local[k] == before.to_local[k]);
    assert(after.to_local.take(m) =~= before.to_local.take(m));
    let last_action = action_of::<QM, MD>(venue.queue_model, book, trigger, last.1);
    assert forall|k: int| 0 <= k < after.orders.len() implies exists|j: int|
        0 <= j < orders.len() && (#[trigger] orders[j]).0 == (#[trigger] after.orders[k]).0
            && orders[j].1.order == after.orders[k].1.order by {
        if k < before.orders.len() {
            assert(after.orders[k] == before.orders[k]);
            let j = choose|j: int|
                0 <= j < front.len() && (#[trigger] front[j]).0 == before.orders[k].0
                    && front[j].1.order == before.orders[k].1.order;
            assert(orders[j] == front[j]);
        } else {
            assert(orders[n].0 == after.orders[k].0);
        }
    }
    if i == n {
        match last_action {
            Some(Action::Fill) => {
                let r = order_filled(
                    venue,
                    before.values,
                    last.1.order,
                    timestamp,
                    true,
                    last.1.order.price,
                )->Ok_0;
                let k = before.to_local.len() as int;
                assert(after.to_local[k].0.fills =~= seq![r.2]);
                assert(reports_whole_fill(after.to_local[k].0, last.1.order, timestamp));
                assert forall|k: int| 0 <= k < after.orders.len() implies (
                #[trigger] after.orders[k]).0 != last.0 by {
                    assert(after.orders[k] == before.orders[k]);
                    let j = choose|j: int|
                        0 <= j < front.len() && (#[trigger] front[j]).0 == before.orders[k].0
                            && front[j].1.order == before.orders[k].1.order;
                    assert(orders[j].0 != orders[n].0);
                }
            },
            _ => {
                assert(after.orders[after.orders.len() - 1].0 == last.0);
            },
        }
    } else {
        let entry = match action_of::<QM, MD>(venue.queue_model, book, trigger, orders[i].1) {
            Some(Action::Requeue(queue_state)) => (
                orders[i].0,
                RestingModel { queue_state, ..orders[i].1 },
            ),
            _ => orders[i],
        };
        match action_of::<QM, MD>(venue.queue_model, book, trigger, orders[i].1) {
            Some(Action::Fill) => {
                let k = choose|k: int|
                    m <= k < before.to_local.len() && reports_whole_fill(
                        (#[trigger] before.to_local[k]).0,
                        orders[i].1.order,
                        timestamp,
                    );
                assert(after.to_local[k] == before.to_local[k]);
                assert forall|k: int| 0 <= k < after.orders.len() implies (
                #[trigger] after.orders[k]).0 != orders[i].0 by {
                    if k < before.orders.len() {
                        assert(after.orders[k] == before.orders[k]);
                    } else {
                        assert(orders[i].0 != orders[n].0);
                    }
                }
            },
            Some(_) => {
                let k = choose|k: int| 0 <= k < before.orders.len() && before.orders[k] == entry;
                assert(after.orders[k] == entry);
            },
            None => {},
        }
    }
}

/// Resting orders in order have identifiers that differ.
proof fn lemma_identifiers_differ<S>(orders: Seq<(OrderId, RestingModel<S>)>)
    requires
        orders_ok(orders),
    ensures
        forall|a: int, b: int|
            0 <= a < b < orders.len() ==> (#[trigger] orders[a]).0 != (#[trigger] orders[b]).0,
{
    assert forall|a: int, b: int| 0 <= a < b < orders.len() implies (#[trigger] orders[a]).0 != (
    #[trigger] orders[b]).0 by {
        assert(orders[a].0.rank() < orders[b].0.rank());
    }
}

/// A trade fills the resting orders that it passes. After a seller traded at a price, without an
/// error, no buy order above that price is left, and each one that was there is reported filled with
/// all that was left of it, at its own price; likewise for a buyer and the sell orders below the
/// price. A buy order below the price and every sell order stay as they are, or the other way round.
/// An order at the very price is asked for its place in the queue: it is filled whole where the trade
/// leaves something for it, and else only moves in the queue. The book stays as it is.
#[verifier::spinoff_prover]
pub proof fn trades_fill_the_orders_they_pass<
    AT: AssetType,
    LM: LatencyModel<OrderRequest, OrderUpdate>,
    QM: QueueModel<MD>,
    MD: MarketDepth,
    FM: FeeModel,
>(
    venue: Venue<AT, FM, QM>,
    book: Book,
    desk: Desk<QM::State, LM>,
    event: Event,
    taker: Side,
    i: int,
)
    requires
        is_exchange_trade(event, taker),
        orders_ok(desk.orders),
        0 <= i < desk.orders.len(),
        processed::<AT, LM, QM, MD, FM>(venue, book, desk, event) is Ok,
    ensures
        ({
            let after = processed::<AT, LM, QM, MD, FM>(venue, book, desk, event)->Ok_0;
            let id = desk.orders[i].0;
            let resting = desk.orders[i].1;
            let order = resting.order;
            let passed = if taker == Side::Sell {
                order.side == Side::Buy && order.price@ > event.px@
            } else {
                order.side == Side::Sell && order.price@ < event.px@
            };
            let met = order.side != taker && order.price@ == event.px@;
            let queued = venue.queue_model.after_trade(
                terms_in_queue(order),
                resting.queue_state,
                event.qty,
                book,
            );
            let filled = no_longer_rests(after.1.orders, id) && whole_fill_reported(
                after.1.to_local,
                desk.to_local.len() as int,
                order,
                event.exch_ts,
            );
            &&& after.0 == book
            &&& after.1.to_local.take(desk.to_local.len() as int) =~= desk.to_local
            &&& passed ==> filled
            &&& !passed && !met ==> after.1.orders.contains(desk.orders[i])
            &&& met ==> (queued matches Some(moved) && (if moved.1@ > 0 {
                filled
            } else {
                after.1.orders.contains((id, RestingModel { queue_state: moved.0, order }))
            }))
        }),
{
    lemma_exchange_flags(event.ev);
    lemma_identifiers_differ(desk.orders);
    let trigger = match taker {
        Side::Buy => Trigger::BuyTrade(event.px, event.qty),
        Side::Sell => Trigger::SellTrade(event.px, event.qty),
    };
    lemma_swept::<AT, LM, QM, MD, FM>(
        venue,
        book,
        trigger,
        event.exch_ts,
        desk.orders,
        desk,
        i,
    );
}

/// What a change of the depth does to the place of each order in the queue.
#[verifier::spinoff_prover]
proof fn lemma_requeued<QM: QueueModel<MD>, MD: MarketDepth>(
    queue_model: QM,
    book: Book,
    side: Side,
    price: Decimal,
    prev_qty: Decimal,
    new_qty: Decimal,
    orders: Seq<(OrderId, RestingModel<QM::State>)>,
)
    requires
        requeued::<QM, MD>(queue_model, book, side, price, prev_qty, new_qty, orders) is Some,
    ensures
        ({
            let after = requeued::<QM, MD>(
                queue_model,
                book,
                side,
                price,
                prev_qty,
                new_qty,
                orders,
            )->0;
            &&& after.len() == orders.len()
            &&& forall|i: int|
                0 <= i < orders.len() ==> {
                    let order = (#[trigger] orders[i]).1.order;
                    let moved = queue_model.after_depth(
                        terms_in_queue(order),
                        orders[i].1.queue_state,
                        prev_qty,
                        new_qty,
                        book,
                    );
                    &&& after[i].0 == orders[i].0
                    &&& after[i].1.order == order
                    &&& order.side == side && order.price@ == price@ ==> moved == Some(
                        after[i].1.queue_state,
                    )
                    &&& order.side != side || order.price@ != price@ ==> after[i] == orders[i]
                }
        }),
    decreases orders.len(),
{
    if orders.len() > 0 {
        let front = orders.drop_last();
        lemma_requeued::<QM, MD>(queue_model, book, side, price, prev_qty, new_qty, front);
        assert forall|i: int| 0 <= i < front.len() implies front[i] == orders[i] by {}
    }
}

/// A level that is set on one side moves the orders of that side at its price in the queue, and
/// leaves the places of all others. Where it makes the best price of its side better than before, or
/// the first, every order of the other side that the new best price reaches is filled: after a bid
/// no sell order at the best bid or below is left, and each is reported filled whole at its own
/// price; likewise for an ask and the buy orders. All other orders stay.
#[verifier::spinoff_prover]
#[verifier::rlimit(60)]
pub proof fn better_prices_fill_the_orders_they_reach<
    AT: AssetType,
    LM: LatencyModel<OrderRequest, OrderUpdate>,
    QM: QueueModel<MD>,
    MD: MarketDepth,
    FM: FeeModel,
>(
    venue: Venue<AT, FM, QM>,
    book: Book,
    desk: Desk<QM::State, LM>,
    event: Event,
    side: Side,
    i: int,
)
    requires
        is_exchange_level(event, side),
        orders_ok(desk.orders),
        0 <= i < desk.orders.len(),
        processed::<AT, LM, QM, MD, FM>(venue, book, desk, event) is Ok,
    ensures
        ({
            let after = processed::<AT, LM, QM, MD, FM>(venue, book, desk, event)->Ok_0;
            let id = desk.orders[i].0;
            let resting = desk.orders[i].1;
            let order = resting.order;
            let reached = match side {
                Side::Buy => after.0.best_bid matches Some(best) && (book.best_bid matches Some(
                    before,
                ) ==> before@ < best@) && order.side == Side::Sell && order.price@ <= best@,
                Side::Sell => after.0.best_ask matches Some(best) && (book.best_ask matches Some(
                    before,
                ) ==> best@ < before@) && order.side == Side::Buy && order.price@ >= best@,
            };
            let previous = match side {
                Side::Buy => lookup(book.bids, event.px@),
                Side::Sell => lookup(book.asks, event.px@),
            };
            let set = Book { ready: book.ready, ..after.0 };
            let moved = venue.queue_model.after_depth(
                terms_in_queue(order),
                resting.queue_state,
                match previous {
                    Some(qty) => qty,
                    None => Decimal::whole(0),
                },
                event.qty,
                set,
            );
            &&& after.1.to_local.take(desk.to_local.len() as int) =~= desk.to_local
            &&& reached ==> no_longer_rests(after.1.orders, id) && whole_fill_reported(
                after.1.to_local,
                desk.to_local.len() as int,
                order,
                event.exch_ts,
            )
            &&& !reached && order.side == side && order.price@ == event.px@ ==> moved is Some
                && after.1.orders.contains((id, RestingModel { queue_state: moved->0, order }))
            &&& !reached && !(order.side == side && order.price@ == event.px@)
                ==> after.1.orders.contains(desk.orders[i])
        }),
{
    lemma_exchange_flags(event.ev);
    lemma_identifiers_differ(desk.orders);
    let after = processed::<AT, LM, QM, MD, FM>(venue, book, desk, event)->Ok_0;
    let m = desk.to_local.len() as int;
    let set = match side {
        Side::Buy => book.bid_set(event.px, event.qty, event.exch_ts),
        Side::Sell => book.ask_set(event.px, event.qty, event.exch_ts),
    };
    assert(set == Book { ready: book.ready, ..after.0 });
    let prev_qty = match side {
        Side::Buy => quantity(book.bids, event.px@),
        Side::Sell => quantity(book.asks, event.px@),
    };
    let orders = requeued::<QM, MD>(
        venue.queue_model,
        set,
        side,
        event.px,
        prev_qty,
        event.qty,
        desk.orders,
    )->0;
    lemma_requeued::<QM, MD>(
        venue.queue_model,
        set,
        side,
        event.px,
        prev_qty,
        event.qty,
        desk.orders,
    );
    assert(orders[i].0 == desk.orders[i].0);
    assert forall|a: int, b: int| 0 <= a < b < orders.len() implies (#[trigger] orders[a]).0 != (
    #[trigger] orders[b]).0 by {
        assert(desk.orders[a].0 != desk.orders[b].0);
        assert(orders[a].0 == desk.orders[a].0 && orders[b].0 == desk.orders[b].0);
    }
    let (now, previously) = match side {
        Side::Buy => (set.best_bid, book.best_bid),
        Side::Sell => (set.best_ask, book.best_ask),
    };
    if improved(side, now, previously) {
        let trigger = match side {
            Side::Buy => Trigger::BestBid(now->0),
            Side::Sell => Trigger::BestAsk(now->0),
        };
        lemma_swept::<AT, LM, QM, MD, FM>(
            venue,
            set,
            trigger,
            event.exch_ts,
            orders,
            Desk { orders, ..desk },
            i,
        );
    } else {
        assert(after.1.orders =~= orders);
        assert(after.1.orders[i] == orders[i]);
        assert(after.1.to_local.take(m) =~= desk.to_local);
    }
}

/// Whether an order reaches the best price of the other side: a buy order at the best ask or above,
/// a sell order at the best bid or below.
pub open spec fn meets_the_market(side: Side, price: Decimal, book: Book) -> bool {
    match side {
        Side::Buy => book.best_ask matches Some(ask) && ask@ <= price@,
        Side::Sell => book.best_bid matches Some(bid) && price@ <= bid@,
    }
}

/// The best price that an order of a side could trade at.
pub open spec fn price_to_take(side: Side, book: Book) -> Option<Decimal> {
    match side {
        Side::Buy => book.best_ask,
        Side::Sell => book.best_bid,
    }
}

/// Whether what placing an order leaves is the order filled whole, at once, at a price, as a taker,
/// and nothing of it in the book.
pub open spec fn taken_whole<S>(
    after: Placed<S>,
    ledger: Ledger<S>,
    order: OrderModel,
    price: Decimal,
    timestamp: i64,
) -> bool {
    &&& after.ledger.orders == ledger.orders
    &&& after.ledger.values.num_trades == ledger.values.num_trades + 1
    &&& after.order.fills.len() == order.fills.len() + 1
    &&& after.order.fills.drop_last() =~= order.fills
    &&& after.order.fills.last().price == price
    &&& Some(after.order.fills.last().qty) == order.qty.difference(order.filled)
    &&& !after.order.fills.last().is_maker
    &&& after.order.fills.last().exch_timestamp == timestamp
    &&& after.order.order_id == order.order_id
    &&& after.order.qty == order.qty
    &&& after.order.side == order.side
    &&& forall|total: Decimal|
        exact_difference(order.qty, order.filled, after.order.fills.last().qty)
            && #[trigger] exact_sum(order.filled, after.order.fills.last().qty, total)
            ==> after.order.status == OrderStatus::Filled
}

/// Whether what placing an order leaves is the order ended unfilled, and all else as it was.
pub open spec fn ended_unfilled<S>(
    after: Placed<S>,
    ledger: Ledger<S>,
    order: OrderModel,
    timestamp: i64,
) -> bool {
    &&& after.ledger == ledger
    &&& after.order.fills == order.fills
    &&& after.order.filled == order.filled
    &&& after.order.order_id == order.order_id
    &&& after.order.status == OrderStatus::Expired
    &&& after.order.exch_timestamp == timestamp
}

/// Whether what placing an order leaves is the order open in the book, at the end of the queue at a
/// price, with nothing traded and all other orders as they were.
pub open spec fn rests_in_the_book<QM: QueueModel<MD>, MD: MarketDepth>(
    queue_model: QM,
    book: Book,
    after: Placed<QM::State>,
    ledger: Ledger<QM::State>,
    order: OrderModel,
    price: Decimal,
    timestamp: i64,
) -> bool {
    &&& after.order == OrderModel {
        price,
        status: OrderStatus::Open,
        exch_timestamp: timestamp,
        ..order
    }
    &&& after.ledger.values == ledger.values
    &&& lookup(after.ledger.orders, order.order_id as int) matches Some(resting) && resting.order
        == after.order && resting.queue_state == queue_model.starting(
        OrderTerms { order_id: order.order_id, side: order.side, price },
        book,
    )
    &&& forall|id: int|
        id != order.order_id ==> #[trigger] lookup(after.ledger.orders, id) == lookup(
            ledger.orders,
            id,
        )
}

/// A new order with an identifier that rests in the book is refused, and nothing else is.
pub proof fn identifiers_are_not_reused<
    AT: AssetType,
    FM: FeeModel,
    QM: QueueModel<MD>,
    MD: MarketDepth,
>(
    venue: Venue<AT, FM, QM>,
    book: Book,
    ledger: Ledger<QM::State>,
    order: OrderModel,
    timestamp: i64,
    validate_rule: bool,
)
    ensures
        placed::<AT, FM, QM, MD>(venue, book, ledger, order, timestamp, validate_rule) == Err::<
            Placed<QM::State>,
            BacktestError,
        >(BacktestError::OrderIdExist) <==> holds(ledger.orders, order.order_id as int),
{
}

/// A market order that was not placed before takes the best price of the other side: it ends with
/// exactly one fill as a taker, of all that is left of it, at that price, and none of it rests in
/// the book. It is filled, where the sums are exact. The only error is that a sum cannot be held.
/// Without a best price on the other side it expires unfilled.
pub proof fn market_orders_take_the_best_price<
    AT: AssetType,
    FM: FeeModel,
    QM: QueueModel<MD>,
    MD: MarketDepth,
>(
    venue: Venue<AT, FM, QM>,
    book: Book,
    ledger: Ledger<QM::State>,
    order: OrderModel,
    timestamp: i64,
    validate_rule: bool,
)
    requires
        order.order_type == OrdType::Market,
        order.price_match == PriceMatch::Explicit,
        order.status == OrderStatus::Open,
        !holds(ledger.orders, order.order_id as int),
    ensures
        ({
            let r = placed::<AT, FM, QM, MD>(
                venue,
                book,
                ledger,
                order,
                timestamp,
                validate_rule,
            );
            match price_to_take(order.side, book) {
                None => r matches Ok(after) && ended_unfilled(after, ledger, order, timestamp),
                Some(best) => {
                    &&& r matches Ok(after) ==> taken_whole(after, ledger, order, best, timestamp)
                    &&& r matches Err(error) ==> error == BacktestError::Overflow
                    &&& forall|qty: Decimal, total: Decimal|
                        exact_difference(order.qty, order.filled, qty) && #[trigger] exact_sum(
                            order.filled,
                            qty,
                            total,
                        ) && filled_values(
                            ledger.values,
                            venue.asset_type,
                            venue.fee_model,
                            order.side,
                            OrderFill {
                                price: best,
                                qty,
                                exch_timestamp: timestamp,
                                is_maker: false,
                            },
                        ) is Some ==> (r matches Ok(after) && after.order.status
                            == OrderStatus::Filled && filled_values(
                            ledger.values,
                            venue.asset_type,
                            venue.fee_model,
                            order.side,
                            after.order.fills.last(),
                        ) == Some(after.ledger.values))
                },
            }
        }),
{
}

/// A limit order whose price the rule allows takes the best price of the other side where it reaches
/// it, whatever the quantity there, unless it is post-only: then it expires. Where it does not reach
/// the other side it rests in the book, at its own price, unless it must be filled at once: then it
/// expires too.
pub proof fn limit_orders_take_rest_or_expire<
    AT: AssetType,
    FM: FeeModel,
    QM: QueueModel<MD>,
    MD: MarketDepth,
>(
    venue: Venue<AT, FM, QM>,
    book: Book,
    ledger: Ledger<QM::State>,
    order: OrderModel,
    timestamp: i64,
    validate_rule: bool,
)
    requires
        order.order_type == OrdType::Limit,
        order.price_match == PriceMatch::Explicit,
        order.status == OrderStatus::Open,
        orders_ok(ledger.orders),
        !holds(ledger.orders, order.order_id as int),
        validate_rule ==> rule_satisfied(order.instruction(), timestamp, venue.changes)
            == Ok::<bool, TickSizeError>(true),
    ensures
        ({
            let r = placed::<AT, FM, QM, MD>(
                venue,
                book,
                ledger,
                order,
                timestamp,
                validate_rule,
            );
            if meets_the_market(order.side, order.price, book) {
                if order.time_in_force == TimeInForce::GTX {
                    r matches Ok(after) && ended_unfilled(after, ledger, order, timestamp)
                } else {
                    &&& r matches Ok(after) ==> taken_whole(
                        after,
                        ledger,
                        order,
                        price_to_take(order.side, book)->0,
                        timestamp,
                    )
                    &&& r matches Err(error) ==> error == BacktestError::Overflow
                }
            } else {
                match order.time_in_force {
                    TimeInForce::GTC | TimeInForce::GTX => r matches Ok(after)
                        && rests_in_the_book::<QM, MD>(
                        venue.queue_model,
                        book,
                        after,
                        ledger,
                        order,
                        order.price,
                        timestamp,
                    ),
                    TimeInForce::FOK | TimeInForce::IOC => r matches Ok(after) && ended_unfilled(
                        after,
                        ledger,
                        order,
                        timestamp,
                    ),
                }
            }
        }),
{
    lemma_inserted(
        ledger.orders,
        order.order_id,
        RestingModel {
            order: order.with_status(OrderStatus::Open, timestamp),
            queue_state: venue.queue_model.starting(terms_in_queue(order), book),
        },
    );
}

/// A limit order whose price the rule does not allow expires unfilled.
pub proof fn limit_orders_off_the_grid_expire<
    AT: AssetType,
    FM: FeeModel,
    QM: QueueModel<MD>,
    MD: MarketDepth,
>(
    venue: Venue<AT, FM, QM>,
    book: Book,
    ledger: Ledger<QM::State>,
    order: OrderModel,
    timestamp: i64,
    tick_size: Decimal,
)
    requires
        order.order_type == OrdType::Limit,
        order.price_match == PriceMatch::Explicit,
        !holds(ledger.orders, order.order_id as int),
        tick_size_at(venue.changes, timestamp) == Ok::<
            Decimal,
            TickSizeError,
        >(tick_size),
        tick_size@ != 0,
        order.price@ % tick_size@ != 0,
    ensures
        placed::<AT, FM, QM, MD>(venue, book, ledger, order, timestamp, true) matches Ok(after)
            && ended_unfilled(after, ledger, order, timestamp),
{
}

/// A request to cancel takes a resting order out of the book, as canceled and with its fills, and
/// nothing else changes; one for an order that does not rest is refused and changes nothing.
pub proof fn cancellations_remove_the_order<
    AT: AssetType,
    FM: FeeModel,
    QM: QueueModel<MD>,
    MD: MarketDepth,
>(
    venue: Venue<AT, FM, QM>,
    book: Book,
    ledger: Ledger<QM::State>,
    order_id: OrderId,
    request_id: u64,
    local_timestamp: i64,
    timestamp: i64,
    id: int,
)
    requires
        orders_ok(ledger.orders),
    ensures
        acted::<AT, FM, QM, MD>(
            venue,
            book,
            ledger,
            OrderRequest::Cancel { request_id, local_timestamp, order_id },
            timestamp,
        ) matches Ok(after) && {
            &&& after.ledger.values == ledger.values
            &&& after.fills.len() == 0
            &&& lookup(after.ledger.orders, order_id as int) is None
            &&& id != order_id ==> lookup(after.ledger.orders, id) == lookup(ledger.orders, id)
            &&& after.accepted <==> lookup(ledger.orders, order_id as int) is Some
            &&& match lookup(ledger.orders, order_id as int) {
                Some(resting) => after.order matches Some(order) && order == OrderModel {
                    status: OrderStatus::Canceled,
                    exch_timestamp: timestamp,
                    ..resting.order
                },
                None => after.order is None && after.ledger.orders =~= ledger.orders,
            }
        },
{
    lemma_removed(ledger.orders, order_id as int);
}

/// A request to modify a resting limit order that carries its new price, where the rule allows it,
/// and asks for more than was filled, replaces the order: it keeps its fills, and goes to the end of
/// the queue at the new price with the new quantity where it does not reach the other side. A
/// post-only order that would reach the other side is canceled instead, and so is an order of which
/// the new quantity leaves nothing. Nothing is traded in these cases.
#[verifier::spinoff_prover]
pub proof fn modified_orders_are_placed_anew<
    AT: AssetType,
    FM: FeeModel,
    QM: QueueModel<MD>,
    MD: MarketDepth,
>(
    venue: Venue<AT, FM, QM>,
    book: Book,
    ledger: Ledger<QM::State>,
    order_id: OrderId,
    price: Decimal,
    qty: Decimal,
    timestamp: i64,
    existing: OrderModel,
)
    requires
        orders_ok(ledger.orders),
        lookup(ledger.orders, order_id as int) matches Some(resting) && resting.order == existing,
        existing.order_id == order_id,
        existing.order_type == OrdType::Limit,
        existing.time_in_force == TimeInForce::GTC || existing.time_in_force == TimeInForce::GTX,
        rule_satisfied(
            OrderModel { price, price_match: PriceMatch::Explicit, ..existing }.instruction(),
            timestamp,
            venue.changes,
        ) == Ok::<bool, TickSizeError>(true),
    ensures
        ({
            let r = modified::<AT, FM, QM, MD>(
                venue,
                book,
                ledger,
                order_id,
                price,
                PriceMatch::Explicit,
                qty,
                timestamp,
            );
            let used_up = existing.filled@ > 0 && qty@ <= existing.filled@;
            let meets = meets_the_market(existing.side, price, book);
            &&& used_up || (meets && existing.time_in_force == TimeInForce::GTX) ==> (r matches Ok(
                after,
            ) && {
                &&& after.accepted
                &&& after.fills.len() == 0
                &&& after.ledger.values == ledger.values
                &&& lookup(after.ledger.orders, order_id as int) is None
                &&& after.order == Some(
                    OrderModel {
                        status: OrderStatus::Canceled,
                        exch_timestamp: timestamp,
                        ..existing
                    },
                )
            })
            &&& !used_up && !meets ==> (r matches Ok(after) && {
                &&& after.accepted
                &&& after.fills.len() == 0
                &&& after.ledger.values == ledger.values
                &&& after.order == Some(
                    OrderModel {
                        price,
                        price_match: PriceMatch::Explicit,
                        qty,
                        status: OrderStatus::Open,
                        exch_timestamp: timestamp,
                        ..existing
                    },
                )
                &&& lookup(after.ledger.orders, order_id as int) matches Some(resting)
                    && Some(resting.order) == after.order && resting.queue_state
                    == venue.queue_model.starting(
                    OrderTerms { order_id, side: existing.side, price },
                    book,
                )
            })
            &&& !used_up && meets && existing.time_in_force == TimeInForce::GTC ==> {
                &&& r matches Ok(after) ==> {
                    &&& after.accepted
                    &&& after.fills.len() == 1
                    &&& after.fills[0].price == price_to_take(existing.side, book)->0
                    &&& !after.fills[0].is_maker
                    &&& Some(after.fills[0].qty) == qty.difference(existing.filled)
                    &&& lookup(after.ledger.orders, order_id as int) is None
                }
                &&& r matches Err(error) ==> error == BacktestError::Overflow
            }
        }),
{
    lemma_removed(ledger.orders, order_id as int);
    let left = Ledger {
        orders: removed(ledger.orders, order_id as int),
        ..ledger
    };
    let canceled = existing.with_status(OrderStatus::Canceled, timestamp);
    let again = OrderModel {
        status: OrderStatus::Open,
        price,
        price_match: PriceMatch::Explicit,
        qty,
        ..canceled
    };
    assert(existing.fills.skip(existing.fills.len() as int).len() == 0);
    lemma_inserted(
        left.orders,
        order_id,
        RestingModel {
            order: again.with_status(OrderStatus::Open, timestamp),
            queue_state: venue.queue_model.starting(terms_in_queue(again), book),
        },
    );
}

/// A request to modify an order that does not rest is refused.
pub proof fn only_resting_orders_are_modified<
    AT: AssetType,
    FM: FeeModel,
    QM: QueueModel<MD>,
    MD: MarketDepth,
>(
    venue: Venue<AT, FM, QM>,
    book: Book,
    ledger: Ledger<QM::State>,
    order_id: OrderId,
    price: Decimal,
    price_match: PriceMatch,
    qty: Decimal,
    timestamp: i64,
)
    requires
        lookup(ledger.orders, order_id as int) is None,
    ensures
        modified::<AT, FM, QM, MD>(
            venue,
            book,
            ledger,
            order_id,
            price,
            price_match,
            qty,
            timestamp,
        ) matches Ok(after) && !after.accepted && after.order is None && after.fills.len() == 0
            && after.ledger == ledger,
{
}

/// What market data does to the book of the exchange. A level of a side is set at the time of the
/// exchange; one of a snapshot also makes the book ready. A clear removes the range of its side to
/// its price, or both sides altogether where it names none, and touches no order. A trade, and what
/// the exchange does not see, leaves the book; the latter also leaves the orders.
pub proof fn exchange_books_follow_exchange_events<
    AT: AssetType,
    LM: LatencyModel<OrderRequest, OrderUpdate>,
    QM: QueueModel<MD>,
    MD: MarketDepth,
    FM: FeeModel,
>(
    venue: Venue<AT, FM, QM>,
    book: Book,
    desk: Desk<QM::State, LM>,
    event: Event,
)
    ensures
        ({
            let r = processed::<AT, LM, QM, MD, FM>(venue, book, desk, event);
            let kind = kind_of(event.ev);
            let seen = event.ev & EXCH_EVENT != 0;
            let set = if event.ev & BUY_EVENT != 0 {
                book.bid_set(event.px, event.qty, event.exch_ts)
            } else {
                book.ask_set(event.px, event.qty, event.exch_ts)
            };
            let sided = event.ev & BUY_EVENT != 0 || event.ev & SELL_EVENT != 0;
            &&& !seen ==> (r matches Ok(after) && after.0 == book && after.1 == desk)
            &&& kind == TRADE_EVENT ==> (r matches Ok(after) ==> after.0 == book)
            &&& seen && sided && kind == DEPTH_EVENT ==> (r matches Ok(after) ==> after.0 == set)
            &&& seen && sided && kind == DEPTH_SNAPSHOT_EVENT ==> (r matches Ok(after) ==> after.0
                == (Book { ready: true, ..set }))
            &&& seen && kind == DEPTH_CLEAR_EVENT ==> (r matches Ok(after) && {
                &&& after.1 == desk
                &&& of_side(event.ev, Side::Buy) ==> after.0 == book.cleared(
                    Side::Buy,
                    Some(event.px),
                )
                &&& of_side(event.ev, Side::Sell) ==> after.0 == book.cleared(
                    Side::Sell,
                    Some(event.px),
                )
                &&& !sided ==> after.0.bids.len() == 0 && after.0.asks.len() == 0
                    && after.0.best_bid is None && after.0.best_ask is None
            })
        }),
{
    lemma_exchange_flags(event.ev);
}

/// The answer to a request tells what became of it: the fills that it led to, the terms and the
/// status of the order, where there is one, and whether the request was granted. The orders and what
/// was traded are then what the request left.
pub proof fn answers_tell_what_became_of_the_request<
    AT: AssetType,
    LM: LatencyModel<OrderRequest, OrderUpdate>,
    QM: QueueModel<MD>,
    MD: MarketDepth,
    FM: FeeModel,
>(
    venue: Venue<AT, FM, QM>,
    book: Book,
    desk: Desk<QM::State, LM>,
    request: OrderRequest,
    timestamp: i64,
)
    requires
        answered::<AT, LM, QM, MD, FM>(venue, book, desk, request, timestamp) is Ok,
    ensures
        ({
            let after = answered::<AT, LM, QM, MD, FM>(
                venue,
                book,
                desk,
                request,
                timestamp,
            )->Ok_0;
            let ledger = Ledger { orders: desk.orders, values: desk.values };
            let message = after.to_local.last().0;
            acted::<AT, FM, QM, MD>(venue, book, ledger, request, timestamp) matches Ok(done) && {
                &&& after.orders == done.ledger.orders
                &&& after.values == done.ledger.values
                &&& after.to_local.len() == desk.to_local.len() + 1
                &&& message.exch_timestamp == timestamp
                &&& message.fills == done.fills
                &&& message.state is Some <==> done.order is Some
                &&& done.order matches Some(order) ==> message.state->0.status == order.status
                    && message.state->0.qty == order.qty && message.state->0.price == order.price
                    && message.state->0.price_match == order.price_match
                &&& message.request_result matches Some(result) && (done.accepted
                    ==> result.outcome == RequestOutcome::Accepted) && (!done.accepted
                    ==> result.outcome == RequestOutcome::Rejected)
            }
        }),
{
}

/// A new order that reaches the exchange is granted, and answered with all its fills.
pub proof fn new_orders_are_granted<
    AT: AssetType,
    FM: FeeModel,
    QM: QueueModel<MD>,
    MD: MarketDepth,
>(
    venue: Venue<AT, FM, QM>,
    book: Book,
    ledger: Ledger<QM::State>,
    request: OrderRequest,
    order: NewOrder,
    timestamp: i64,
)
    requires
        request matches OrderRequest::New { order: new, .. } && new == order,
    ensures
        acted::<AT, FM, QM, MD>(venue, book, ledger, request, timestamp) matches Ok(done) ==> {
            &&& done.accepted
            &&& done.order matches Some(after) && after.fills == done.fills && after.order_id
                == order.order_id && after.side == order.side && after.qty == order.qty
            &&& placed::<AT, FM, QM, MD>(
                venue,
                book,
                ledger,
                OrderModel::placed(order),
                timestamp,
                true,
            ) matches Ok(after) && after.ledger == done.ledger && Some(after.order) == done.order
        },
{
}

/// What a sweep reports.
#[verifier::spinoff_prover]
#[verifier::rlimit(60)]
proof fn lemma_sweep_reports<
    AT: AssetType,
    LM: LatencyModel<OrderRequest, OrderUpdate>,
    QM: QueueModel<MD>,
    MD: MarketDepth,
    FM: FeeModel,
>(
    venue: Venue<AT, FM, QM>,
    book: Book,
    trigger: Trigger,
    timestamp: i64,
    orders: Seq<(OrderId, RestingModel<QM::State>)>,
    desk: Desk<QM::State, LM>,
)
    requires
        forall|a: int, b: int|
            0 <= a < b < orders.len() ==> (#[trigger] orders[a]).1.order.order_id != (
            #[trigger] orders[b]).1.order.order_id,
        swept::<AT, LM, QM, MD, FM>(venue, book, trigger, timestamp, orders, desk) is Ok,
    ensures
        ({
            let after = swept::<AT, LM, QM, MD, FM>(
                venue,
                book,
                trigger,
                timestamp,
                orders,
                desk,
            )->Ok_0;
            let m = desk.to_local.len() as int;
            &&& m <= after.to_local.len()
            &&& after.orders.len() + (after.to_local.len() - m) == orders.len()
            &&& after.values.num_trades == desk.values.num_trades + (after.to_local.len() - m)
            &&& forall|k: int|
                m <= k < after.to_local.len() ==> exists|j: int|
                    0 <= j < orders.len() && reports_whole_fill(
                        (#[trigger] after.to_local[k]).0,
                        (#[trigger] orders[j]).1.order,
                        timestamp,
                    )
            &&& forall|k: int, l: int|
                m <= k < l < after.to_local.len() ==> (#[trigger] after.to_local[k]).0.order_id != (
                #[trigger] after.to_local[l]).0.order_id
        }),
    decreases orders.len(),
{
    if orders.len() > 0 {
        let front = orders.drop_last();
        let n = orders.len() - 1;
        let m = desk.to_local.len() as int;
        assert forall|a: int| 0 <= a < front.len() implies front[a] == orders[a] by {}
        let before = swept::<AT, LM, QM, MD, FM>(
            venue,
            book,
            trigger,
            timestamp,
            front,
            desk,
        )->Ok_0;
        let after = swept::<AT, LM, QM, MD, FM>(
            venue,
            book,
            trigger,
            timestamp,
            orders,
            desk,
        )->Ok_0;
        lemma_sweep_reports::<AT, LM, QM, MD, FM>(venue, book, trigger, timestamp, front, desk);
        let last = orders[n];
        assert(last == orders.last());
        assert forall|k: int| m <= k < before.to_local.len() implies exists|j: int|
            0 <= j < orders.len() && reports_whole_fill(
                (#[trigger] after.to_local[k]).0,
                (#[trigger] orders[j]).1.order,
                timestamp,
            ) by {
            assert(after.to_local[k] == before.to_local[k]);
            let j = choose|j: int|
                0 <= j < front.len() && reports_whole_fill(
                    before.to_local[k].0,
                    (#[trigger] front[j]).1.order,
                    timestamp,
                );
            assert(orders[j] == front[j]);
        }
        match action_of::<QM, MD>(venue.queue_model, book, trigger, last.1) {
            Some(Action::Fill) => {
                let r = order_filled(
                    venue,
                    before.values,
                    last.1.order,
                    timestamp,
                    true,
                    last.1.order.price,
                )->Ok_0;
                let k = before.to_local.len() as int;
                assert(after.to_local[k].0.fills =~= seq![r.2]);
                assert(reports_whole_fill(after.to_local[k].0, orders[n].1.order, timestamp));
                assert forall|a: int, b: int| m <= a < b < after.to_local.len() implies (
                #[trigger] after.to_local[a]).0.order_id != (
                #[trigger] after.to_local[b]).0.order_id by {
                    assert(after.to_local[a] == before.to_local[a]);
                    if b < k {
                        assert(after.to_local[b] == before.to_local[b]);
                    } else {
                        let j = choose|j: int|
                            0 <= j < front.len() && reports_whole_fill(
                                before.to_local[a].0,
                                (#[trigger] front[j]).1.order,
                                timestamp,
                            );
                        assert(orders[j].1.order.order_id != orders[n].1.order.order_id);
                    }
                }
            },
            _ => {
                assert(after.to_local == before.to_local);
            },
        }
    }
}

/// A trade reports nothing but fills, one for each order that it fills and none twice. Each counts
/// as one trade and takes one order out of the book, and no order comes in.
pub proof fn trades_report_each_fill_once<
    AT: AssetType,
    LM: LatencyModel<OrderRequest, OrderUpdate>,
    QM: QueueModel<MD>,
    MD: MarketDepth,
    FM: FeeModel,
>(
    venue: Venue<AT, FM, QM>,
    book: Book,
    desk: Desk<QM::State, LM>,
    event: Event,
    taker: Side,
)
    requires
        is_exchange_trade(event, taker),
        orders_ok(desk.orders),
        processed::<AT, LM, QM, MD, FM>(venue, book, desk, event) is Ok,
    ensures
        ({
            let after = processed::<AT, LM, QM, MD, FM>(venue, book, desk, event)->Ok_0.1;
            let m = desk.to_local.len() as int;
            &&& after.orders.len() + (after.to_local.len() - m) == desk.orders.len()
            &&& after.values.num_trades == desk.values.num_trades + (after.to_local.len() - m)
            &&& forall|k: int|
                m <= k < after.to_local.len() ==> exists|j: int|
                    0 <= j < desk.orders.len() && reports_whole_fill(
                        (#[trigger] after.to_local[k]).0,
                        (#[trigger] desk.orders[j]).1.order,
                        event.exch_ts,
                    )
            &&& forall|k: int, l: int|
                m <= k < l < after.to_local.len() ==> (#[trigger] after.to_local[k]).0.order_id != (
                #[trigger] after.to_local[l]).0.order_id
        }),
{
    lemma_exchange_flags(event.ev);
    lemma_identifiers_differ(desk.orders);
    assert forall|a: int, b: int| 0 <= a < b < desk.orders.len() implies (
    #[trigger] desk.orders[a]).1.order.order_id != (
    #[trigger] desk.orders[b]).1.order.order_id by {
        assert(desk.orders[a].0 != desk.orders[b].0);
    }
    let trigger = match taker {
        Side::Buy => Trigger::BuyTrade(event.px, event.qty),
        Side::Sell => Trigger::SellTrade(event.px, event.qty),
    };
    lemma_sweep_reports::<AT, LM, QM, MD, FM>(
        venue,
        book,
        trigger,
        event.exch_ts,
        desk.orders,
        desk,
    );
}

/// A limit order that names a level of the book is placed at the price of that level: it takes the
/// best price of the other side where that price reaches it, unless it is post-only, and rests at
/// that price where it does not, unless it must be filled at once. Where there is no such level it
/// expires unfilled. The tick-size rule does not bind it.
pub proof fn orders_that_name_a_level_are_placed_there<
    AT: AssetType,
    FM: FeeModel,
    QM: QueueModel<MD>,
    MD: MarketDepth,
>(
    venue: Venue<AT, FM, QM>,
    book: Book,
    ledger: Ledger<QM::State>,
    order: OrderModel,
    timestamp: i64,
    validate_rule: bool,
)
    requires
        order.order_type == OrdType::Limit,
        order.price_match != PriceMatch::Explicit,
        order.status == OrderStatus::Open,
        orders_ok(ledger.orders),
        !holds(ledger.orders, order.order_id as int),
    ensures
        ({
            let r = placed::<AT, FM, QM, MD>(
                venue,
                book,
                ledger,
                order,
                timestamp,
                validate_rule,
            );
            match resolved_price(order.instruction(), book) {
                None => r matches Ok(after) && ended_unfilled(after, ledger, order, timestamp),
                Some(price) => if meets_the_market(order.side, price, book) {
                    if order.time_in_force == TimeInForce::GTX {
                        r matches Ok(after) && ended_unfilled(after, ledger, order, timestamp)
                    } else {
                        &&& r matches Ok(after) ==> taken_whole(
                            after,
                            ledger,
                            order,
                            price_to_take(order.side, book)->0,
                            timestamp,
                        ) && after.order.price == price
                        &&& r matches Err(error) ==> error == BacktestError::Overflow
                    }
                } else {
                    match order.time_in_force {
                        TimeInForce::GTC | TimeInForce::GTX => r matches Ok(after)
                            && rests_in_the_book::<QM, MD>(
                            venue.queue_model,
                            book,
                            after,
                            ledger,
                            order,
                            price,
                            timestamp,
                        ),
                        TimeInForce::FOK | TimeInForce::IOC => r matches Ok(after)
                            && ended_unfilled(after, ledger, order, timestamp),
                    }
                },
            }
        }),
{
    if let Some(price) = resolved_price(order.instruction(), book) {
        let priced = OrderModel { price, ..order };
        lemma_inserted(
            ledger.orders,
            order.order_id,
            RestingModel {
                order: priced.with_status(OrderStatus::Open, timestamp),
                queue_state: venue.queue_model.starting(terms_in_queue(priced), book),
            },
        );
    }
}

/// A new price that the rule does not allow is refused, and so is a level that the book does not
/// have; the order stays as it is. A price that stays needs no rule: the same price is granted
/// whatever the ticks are now.
pub proof fn modifications_need_a_price<
    AT: AssetType,
    FM: FeeModel,
    QM: QueueModel<MD>,
    MD: MarketDepth,
>(
    venue: Venue<AT, FM, QM>,
    book: Book,
    ledger: Ledger<QM::State>,
    order_id: OrderId,
    price: Decimal,
    price_match: PriceMatch,
    qty: Decimal,
    timestamp: i64,
    existing: OrderModel,
)
    requires
        lookup(ledger.orders, order_id as int) matches Some(resting) && resting.order == existing,
        existing.order_type == OrdType::Limit,
    ensures
        ({
            let r = modified::<AT, FM, QM, MD>(
                venue,
                book,
                ledger,
                order_id,
                price,
                price_match,
                qty,
                timestamp,
            );
            let candidate = OrderModel { price, price_match, ..existing };
            let refused = r matches Ok(after) && !after.accepted && after.order == Some(existing)
                && after.fills.len() == 0 && after.ledger == ledger;
            &&& price_match == PriceMatch::Explicit && existing.price@ != price@ && rule_satisfied(
                candidate.instruction(),
                timestamp,
                venue.changes,
            ) == Ok::<bool, TickSizeError>(false) ==> refused
            &&& price_match != PriceMatch::Explicit && resolved_price(
                candidate.instruction(),
                book,
            ) is None ==> refused
            &&& price_match == PriceMatch::Explicit && existing.price@ == price@ ==> (r matches Ok(
                after,
            ) ==> after.accepted)
        }),
{
}

} // verus!
