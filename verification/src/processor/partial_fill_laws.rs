//! What the exchange model with partial fills promises of orders and market events.
use vstd::prelude::*;

use crate::assettype::AssetType;
use crate::decimal::Decimal;
use crate::decimal::exact_difference;
use crate::decimal::exact_product;
use crate::decimal::exact_sum;
use crate::depth::Book;
use crate::depth::MarketDepth;
use crate::depth::quantity;
use crate::error::BacktestError;
use crate::lifecycle::OrderFill;
use crate::models::fee::FeeModel;
use crate::models::latency::LatencyModel;
use crate::models::queue::OrderTerms;
use crate::models::queue::QueueModel;
use crate::processor::market_flags::is_exchange_level;
use crate::processor::market_flags::is_exchange_trade;
use crate::processor::market_flags::lemma_exchange_flags;
use crate::processor::market_flags::of_side;
use crate::processor::partialfillexchange::Action;
use crate::processor::partialfillexchange::Counter;
use crate::processor::partialfillexchange::Ledger;
use crate::processor::partialfillexchange::Placed;
use crate::processor::partialfillexchange::QueuedOrder;
use crate::processor::partialfillexchange::acted;
use crate::processor::partialfillexchange::acted_on;
use crate::processor::partialfillexchange::action_of;
use crate::processor::partialfillexchange::answered;
use crate::processor::partialfillexchange::canceled;
use crate::processor::partialfillexchange::instruction_of;
use crate::processor::partialfillexchange::left_after;
use crate::processor::partialfillexchange::lemma_plan_is_taken;
use crate::processor::partialfillexchange::lemma_walk_plans;
use crate::processor::partialfillexchange::levels_filled;
use crate::processor::partialfillexchange::maker_filled;
use crate::processor::partialfillexchange::modified;
use crate::processor::partialfillexchange::opposite_levels;
use crate::processor::partialfillexchange::order_filled;
use crate::processor::partialfillexchange::orders_ok;
use crate::processor::partialfillexchange::placed;
use crate::processor::partialfillexchange::plan_of;
use crate::processor::partialfillexchange::plan_start;
use crate::processor::partialfillexchange::planned;
use crate::processor::partialfillexchange::processed;
use crate::processor::partialfillexchange::requeued;
use crate::processor::partialfillexchange::resting_status;
use crate::processor::partialfillexchange::swept;
use crate::processor::price_match::resolved_price;
use crate::processor::price_match::rule_satisfied;
use crate::processor::venue::Trigger;
use crate::processor::venue::Venue;
use crate::processor::venue::improved;
use crate::processor::whole_fill_laws::meets_the_market;
use crate::rules::TickSizeError;
use crate::rules::tick_size_at;
use crate::sorted_map::Ranked;
use crate::sorted_map::holds;
use crate::sorted_map::lemma_inserted;
use crate::sorted_map::lemma_removed;
use crate::sorted_map::lookup;
use crate::sorted_map::removed;
use crate::state::all_filled_values;
use crate::state::filled_values;
use crate::types::BUY_EVENT;
use crate::types::DEPTH_CLEAR_EVENT;
use crate::types::DEPTH_EVENT;
use crate::types::DEPTH_SNAPSHOT_EVENT;
use crate::types::EXCH_EVENT;
use crate::types::Event;
use crate::types::OrdType;
use crate::types::Order;
use crate::types::OrderId;
use crate::types::PriceMatch;
use crate::types::SELL_EVENT;
use crate::types::Side;
use crate::types::StateValues;
use crate::types::Status;
use crate::types::TRADE_EVENT;
use crate::types::TimeInForce;
use crate::types::kind_of;

verus! {

/// What a queue model is told of an order.
pub open spec fn terms_in_queue(order: Order) -> OrderTerms {
    OrderTerms { order_id: order.order_id, side: order.side, price: order.price }
}

/// Whether a report says that a quantity of an order in the book was filled at a time, at its own
/// price, as a maker, and what is left of it then.
pub open spec fn reports_fill(report: Order, order: Order, qty: Decimal, timestamp: i64) -> bool {
    &&& report.order_id == order.order_id
    &&& report.side == order.side
    &&& report.price == order.price
    &&& report.qty == order.qty
    &&& report.exch_timestamp == timestamp
    &&& report.exec_qty == qty
    &&& report.exec_price == order.price
    &&& report.maker
    &&& report.taker_price_level_count == order.taker_price_level_count
    &&& order.cum_exec_qty.sum(qty) == Some(report.cum_exec_qty)
    &&& qty.product(order.price) matches Some(value) && order.cum_exec_value.sum(value) == Some(
        report.cum_exec_value,
    )
    &&& order.leaves_qty.difference(qty) == Some(report.leaves_qty)
    &&& report.leaves_qty@ > 0 ==> report.status == Status::PartiallyFilled
    &&& report.leaves_qty@ <= 0 ==> report.status == Status::Filled
}

/// Whether one of the messages from a place on reports a fill.
pub open spec fn fill_reported(
    messages: Seq<(Order, i64)>,
    from: int,
    order: Order,
    qty: Decimal,
    timestamp: i64,
) -> bool {
    exists|k: int|
        from <= k < messages.len() && reports_fill(
            (#[trigger] messages[k]).0,
            order,
            qty,
            timestamp,
        )
}

/// Whether an identifier is none of those of the orders in the book.
pub open spec fn no_longer_rests<S>(orders: Seq<(OrderId, QueuedOrder<S>)>, id: OrderId) -> bool {
    forall|k: int| 0 <= k < orders.len() ==> (#[trigger] orders[k]).0 != id
}

/// Whether an order in the book was filled by a quantity: it is reported, and what is left of the
/// order stays in the book at a place in the queue; an order of which nothing is left is gone.
pub open spec fn filled_in_part<S, LM>(
    after: Counter<S, LM>,
    from: int,
    id: OrderId,
    order: Order,
    qty: Decimal,
    queue_state: S,
    timestamp: i64,
) -> bool {
    exists|k: int|
        {
            let report = (#[trigger] after.to_local[k]).0;
            &&& from <= k < after.to_local.len()
            &&& reports_fill(report, order, qty, timestamp)
            &&& report.leaves_qty@ > 0 ==> after.orders.contains(
                (id, QueuedOrder { order: report, queue_state }),
            )
            &&& report.leaves_qty@ <= 0 ==> no_longer_rests(after.orders, id)
        }
}

/// What a sweep of the orders does to each of them.
#[verifier::spinoff_prover]
#[verifier::rlimit(100)]
proof fn lemma_swept<
    AT: AssetType,
    LM: LatencyModel<Order, Order>,
    QM: QueueModel<MD>,
    MD: MarketDepth,
    FM: FeeModel,
>(
    venue: Venue<AT, FM, QM>,
    book: Book,
    trigger: Trigger,
    timestamp: i64,
    orders: Seq<(OrderId, QueuedOrder<QM::State>)>,
    counter: Counter<QM::State, LM>,
    i: int,
)
    requires
        0 <= i < orders.len(),
        forall|a: int, b: int|
            0 <= a < b < orders.len() ==> (#[trigger] orders[a]).0 != (#[trigger] orders[b]).0,
        swept::<AT, LM, QM, MD, FM>(venue, book, trigger, timestamp, orders, counter) is Ok,
    ensures
        ({
            let after = swept::<AT, LM, QM, MD, FM>(
                venue,
                book,
                trigger,
                timestamp,
                orders,
                counter,
            )->Ok_0;
            let queued = orders[i].1;
            let m = counter.to_local.len() as int;
            &&& m <= after.to_local.len()
            &&& after.to_local.take(m) =~= counter.to_local
            &&& forall|k: int|
                0 <= k < after.orders.len() ==> exists|j: int|
                    0 <= j < orders.len() && (#[trigger] orders[j]).0 == (
                    #[trigger] after.orders[k]).0
            &&& match action_of::<QM, MD>(venue.queue_model, book, trigger, queued) {
                None => false,
                Some(Action::Keep) => after.orders.contains(orders[i]),
                Some(Action::Requeue(queue_state)) => after.orders.contains(
                    (orders[i].0, QueuedOrder { queue_state, ..queued }),
                ),
                Some(Action::Fill(qty, queue_state)) => filled_in_part(
                    after,
                    m,
                    orders[i].0,
                    queued.order,
                    qty,
                    queue_state,
                    timestamp,
                ),
                Some(Action::FillAll) => {
                    &&& no_longer_rests(after.orders, orders[i].0)
                    &&& fill_reported(
                        after.to_local,
                        m,
                        queued.order,
                        queued.order.leaves_qty,
                        timestamp,
                    )
                },
            }
        }),
    decreases orders.len(),
{
    let front = orders.drop_last();
    let n = orders.len() - 1;
    let m = counter.to_local.len() as int;
    let before = swept::<AT, LM, QM, MD, FM>(
        venue,
        book,
        trigger,
        timestamp,
        front,
        counter,
    )->Ok_0;
    let after = swept::<AT, LM, QM, MD, FM>(
        venue,
        book,
        trigger,
        timestamp,
        orders,
        counter,
    )->Ok_0;
    let last = orders[n];
    assert(last == orders.last());
    assert forall|a: int| 0 <= a < front.len() implies front[a] == orders[a] by {}
    if front.len() > 0 {
        lemma_swept::<AT, LM, QM, MD, FM>(
            venue,
            book,
            trigger,
            timestamp,
            front,
            counter,
            if i < n {
                i
            } else {
                0
            },
        );
    } else {
        assert(front =~= Seq::empty());
        assert(before.to_local.take(m) =~= counter.to_local);
    }
    let last_action = action_of::<QM, MD>(venue.queue_model, book, trigger, last.1);
    lemma_acted_on::<AT, LM, QM, MD, FM>(
        venue,
        before,
        last.0,
        last.1,
        last_action,
        timestamp,
    );
    assert(after.to_local.take(m) =~= before.to_local.take(m));
    assert forall|k: int| 0 <= k < after.orders.len() implies exists|j: int|
        0 <= j < orders.len() && (#[trigger] orders[j]).0 == (#[trigger] after.orders[k]).0 by {
        if k < before.orders.len() {
            assert(after.orders[k] == before.orders[k]);
            let j = choose|j: int|
                0 <= j < front.len() && (#[trigger] front[j]).0 == before.orders[k].0;
            assert(orders[j] == front[j]);
        } else {
            assert(orders[n].0 == after.orders[k].0);
        }
    }
    assert(no_longer_rests(before.orders, last.0)) by {
        assert forall|k: int| 0 <= k < before.orders.len() implies (
        #[trigger] before.orders[k]).0 != last.0 by {
            let j = choose|j: int|
                0 <= j < front.len() && (#[trigger] front[j]).0 == before.orders[k].0;
            assert(orders[j].0 != orders[n].0);
        }
    }
    if i == n {
        lemma_last_acted_on::<AT, LM, QM, MD, FM>(
            venue,
            before,
            m,
            last.0,
            last.1,
            last_action,
            timestamp,
        );
    } else {
        assert(orders[i].0 != orders[n].0);
        lemma_earlier_stay(
            before,
            after,
            m,
            orders[i].0,
            orders[i].1,
            last.0,
            action_of::<QM, MD>(venue.queue_model, book, trigger, orders[i].1),
            timestamp,
        );
    }
}

/// What happens to one order leaves what stands in front of it.
#[verifier::spinoff_prover]
proof fn lemma_acted_on<
    AT: AssetType,
    LM: LatencyModel<Order, Order>,
    QM: QueueModel<MD>,
    MD: MarketDepth,
    FM: FeeModel,
>(
    venue: Venue<AT, FM, QM>,
    before: Counter<QM::State, LM>,
    id: OrderId,
    queued: QueuedOrder<QM::State>,
    action: Option<Action<QM::State>>,
    timestamp: i64,
)
    requires
        acted_on::<AT, LM, QM, MD, FM>(
            venue,
            before,
            id,
            queued,
            action,
            timestamp,
        ) is Ok,
    ensures
        ({
            let after = acted_on::<AT, LM, QM, MD, FM>(
                venue,
                before,
                id,
                queued,
                action,
                timestamp,
            )->Ok_0;
            &&& before.to_local.len() <= after.to_local.len()
            &&& forall|k: int|
                0 <= k < before.to_local.len() ==> #[trigger] after.to_local[k]
                    == before.to_local[k]
            &&& before.orders.len() <= after.orders.len() <= before.orders.len() + 1
            &&& forall|k: int|
                0 <= k < before.orders.len() ==> #[trigger] after.orders[k] == before.orders[k]
            &&& forall|k: int|
                before.orders.len() <= k < after.orders.len() ==> (#[trigger] after.orders[k]).0
                    == id
        }),
{
}

/// What happens to the last order.
#[verifier::spinoff_prover]
#[verifier::rlimit(40)]
proof fn lemma_last_acted_on<
    AT: AssetType,
    LM: LatencyModel<Order, Order>,
    QM: QueueModel<MD>,
    MD: MarketDepth,
    FM: FeeModel,
>(
    venue: Venue<AT, FM, QM>,
    before: Counter<QM::State, LM>,
    m: int,
    id: OrderId,
    queued: QueuedOrder<QM::State>,
    action: Option<Action<QM::State>>,
    timestamp: i64,
)
    requires
        m <= before.to_local.len(),
        no_longer_rests(before.orders, id),
        acted_on::<AT, LM, QM, MD, FM>(
            venue,
            before,
            id,
            queued,
            action,
            timestamp,
        ) is Ok,
    ensures
        ({
            let after = acted_on::<AT, LM, QM, MD, FM>(
                venue,
                before,
                id,
                queued,
                action,
                timestamp,
            )->Ok_0;
            match action {
                None => false,
                Some(Action::Keep) => after.orders.contains((id, queued)),
                Some(Action::Requeue(queue_state)) => after.orders.contains(
                    (id, QueuedOrder { queue_state, ..queued }),
                ),
                Some(Action::Fill(qty, queue_state)) => filled_in_part(
                    after,
                    m,
                    id,
                    queued.order,
                    qty,
                    queue_state,
                    timestamp,
                ),
                Some(Action::FillAll) => {
                    &&& no_longer_rests(after.orders, id)
                    &&& fill_reported(
                        after.to_local,
                        m,
                        queued.order,
                        queued.order.leaves_qty,
                        timestamp,
                    )
                },
            }
        }),
{
    let after = acted_on::<AT, LM, QM, MD, FM>(
        venue,
        before,
        id,
        queued,
        action,
        timestamp,
    )->Ok_0;
    let k = before.to_local.len() as int;
    match action {
        None => {},
        Some(Action::Keep) => {
            assert(after.orders[before.orders.len() as int] == (id, queued));
        },
        Some(Action::Requeue(queue_state)) => {
            assert(after.orders[before.orders.len() as int] == (
                id,
                QueuedOrder { queue_state, ..queued },
            ));
        },
        Some(Action::Fill(qty, queue_state)) => {
            let r = maker_filled(venue, before, queued.order, timestamp, qty)->Ok_0;
            assert(after.to_local[k].0 == r.0);
            assert(reports_fill(r.0, queued.order, qty, timestamp));
            if r.0.leaves_qty@ > 0 {
                assert(after.orders[before.orders.len() as int] == (
                    id,
                    QueuedOrder { order: r.0, queue_state },
                ));
            }
        },
        Some(Action::FillAll) => {
            let r = maker_filled(
                venue,
                before,
                queued.order,
                timestamp,
                queued.order.leaves_qty,
            )->Ok_0;
            assert(after.to_local[k].0 == r.0);
            assert(reports_fill(
                after.to_local[k].0,
                queued.order,
                queued.order.leaves_qty,
                timestamp,
            ));
        },
    }
}

/// What happened to an order stays so when something happens to another one.
#[verifier::spinoff_prover]
proof fn lemma_earlier_stay<S, LM>(
    before: Counter<S, LM>,
    after: Counter<S, LM>,
    m: int,
    id: OrderId,
    queued: QueuedOrder<S>,
    other: OrderId,
    action: Option<Action<S>>,
    timestamp: i64,
)
    requires
        id != other,
        before.to_local.len() <= after.to_local.len(),
        forall|k: int|
            0 <= k < before.to_local.len() ==> #[trigger] after.to_local[k] == before.to_local[k],
        before.orders.len() <= after.orders.len() <= before.orders.len() + 1,
        forall|k: int|
            0 <= k < before.orders.len() ==> #[trigger] after.orders[k] == before.orders[k],
        forall|k: int|
            before.orders.len() <= k < after.orders.len() ==> (#[trigger] after.orders[k]).0
                == other,
        0 <= m,
    ensures
        no_longer_rests(before.orders, id) ==> no_longer_rests(after.orders, id),
        forall|entry: (OrderId, QueuedOrder<S>)|
            before.orders.contains(entry) ==> #[trigger] after.orders.contains(entry),
        fill_reported(before.to_local, m, queued.order, queued.order.leaves_qty, timestamp)
            ==> fill_reported(
            after.to_local,
            m,
            queued.order,
            queued.order.leaves_qty,
            timestamp,
        ),
        action matches Some(Action::Fill(qty, queue_state)) ==> (filled_in_part(
            before,
            m,
            id,
            queued.order,
            qty,
            queue_state,
            timestamp,
        ) ==> filled_in_part(after, m, id, queued.order, qty, queue_state, timestamp)),
{
    assert forall|entry: (OrderId, QueuedOrder<S>)| before.orders.contains(
        entry,
    ) implies #[trigger] after.orders.contains(entry) by {
        let k = choose|k: int| 0 <= k < before.orders.len() && before.orders[k] == entry;
        assert(after.orders[k] == entry);
    }
    if no_longer_rests(before.orders, id) {
        assert forall|k: int| 0 <= k < after.orders.len() implies (#[trigger] after.orders[k]).0
            != id by {
            if k < before.orders.len() {
                assert(after.orders[k] == before.orders[k]);
            }
        }
    }
    if fill_reported(before.to_local, m, queued.order, queued.order.leaves_qty, timestamp) {
        let k = choose|k: int|
            m <= k < before.to_local.len() && reports_fill(
                (#[trigger] before.to_local[k]).0,
                queued.order,
                queued.order.leaves_qty,
                timestamp,
            );
        assert(after.to_local[k] == before.to_local[k]);
    }
    if let Some(Action::Fill(qty, queue_state)) = action {
        if filled_in_part(before, m, id, queued.order, qty, queue_state, timestamp) {
            let k = choose|k: int|
                {
                    let report = (#[trigger] before.to_local[k]).0;
                    &&& m <= k < before.to_local.len()
                    &&& reports_fill(report, queued.order, qty, timestamp)
                    &&& report.leaves_qty@ > 0 ==> before.orders.contains(
                        (id, QueuedOrder { order: report, queue_state }),
                    )
                    &&& report.leaves_qty@ <= 0 ==> no_longer_rests(before.orders, id)
                };
            assert(after.to_local[k] == before.to_local[k]);
        }
    }
}

/// Orders in order have identifiers that differ.
proof fn lemma_identifiers_differ<S>(orders: Seq<(OrderId, QueuedOrder<S>)>)
    requires
        orders_ok(orders),
    ensures
        forall|a: int, b: int|
            0 <= a < b < orders.len() ==> (#[trigger] orders[a]).0 != (#[trigger] orders[b]).0,
{
    assert forall|a: int, b: int| 0 <= a < b < orders.len() implies (#[trigger] orders[a]).0 != (
    #[trigger] orders[b]).0 by {
        assert(orders[a].0.rank() < orders[b].0.rank());
    }
}

/// A trade fills the orders in the book that it passes. After a seller traded at a price, without an
/// error, no buy order above that price is left, and each one that was there is reported filled with
/// all its open quantity, at its own price; likewise for a buyer and the sell orders below the
/// price. A buy order below the price and every sell order stay as they are, or the other way round.
/// An order at the very price is asked for its place in the queue: it is filled by what the trade
/// leaves for it, but by no more than is open of it, and else only moves in the queue.
#[verifier::spinoff_prover]
pub proof fn trades_fill_the_orders_they_pass<
    AT: AssetType,
    LM: LatencyModel<Order, Order>,
    QM: QueueModel<MD>,
    MD: MarketDepth,
    FM: FeeModel,
>(
    venue: Venue<AT, FM, QM>,
    book: Book,
    counter: Counter<QM::State, LM>,
    event: Event,
    taker: Side,
    i: int,
)
    requires
        is_exchange_trade(event, taker),
        orders_ok(counter.orders),
        0 <= i < counter.orders.len(),
        processed::<AT, LM, QM, MD, FM>(venue, book, counter, event) is Ok,
    ensures
        ({
            let after = processed::<AT, LM, QM, MD, FM>(venue, book, counter, event)->Ok_0;
            let id = counter.orders[i].0;
            let queued = counter.orders[i].1;
            let order = queued.order;
            let m = counter.to_local.len() as int;
            let passed = if taker == Side::Sell {
                order.side == Side::Buy && order.price@ > event.px@
            } else {
                order.side == Side::Sell && order.price@ < event.px@
            };
            let met = order.side != taker && order.price@ == event.px@;
            let traded = venue.queue_model.after_trade(
                terms_in_queue(order),
                queued.queue_state,
                event.qty,
                book,
            );
            &&& after.0 == book
            &&& after.1.to_local.take(m) =~= counter.to_local
            &&& passed ==> no_longer_rests(after.1.orders, id) && fill_reported(
                after.1.to_local,
                m,
                order,
                order.leaves_qty,
                event.exch_ts,
            )
            &&& !passed && !met ==> after.1.orders.contains(counter.orders[i])
            &&& met ==> (traded matches Some(moved) && {
                &&& moved.1@ > 0 && moved.1@ <= order.leaves_qty@ ==> filled_in_part(
                    after.1,
                    m,
                    id,
                    order,
                    moved.1,
                    moved.0,
                    event.exch_ts,
                )
                &&& moved.1@ > 0 && moved.1@ > order.leaves_qty@ ==> filled_in_part(
                    after.1,
                    m,
                    id,
                    order,
                    order.leaves_qty,
                    moved.0,
                    event.exch_ts,
                )
                &&& moved.1@ <= 0 ==> after.1.orders.contains(
                    (id, QueuedOrder { order, queue_state: moved.0 }),
                )
            })
        }),
{
    lemma_exchange_flags(event.ev);
    lemma_identifiers_differ(counter.orders);
    let trigger = match taker {
        Side::Buy => Trigger::BuyTrade(event.px, event.qty),
        Side::Sell => Trigger::SellTrade(event.px, event.qty),
    };
    lemma_swept::<AT, LM, QM, MD, FM>(
        venue,
        book,
        trigger,
        event.exch_ts,
        counter.orders,
        counter,
        i,
    );
}

/// What a change of the depth does to the place of each order in the queue.
#[verifier::spinoff_prover]
proof fn lemma_requeued<QM: QueueModel<MD>, MD: MarketDepth>(
    queue_model: QM,
    book: Book,
    side: Side,
    price: Decimal,
    prev_qty: Decimal,
    new_qty: Decimal,
    orders: Seq<(OrderId, QueuedOrder<QM::State>)>,
)
    requires
        requeued::<QM, MD>(queue_model, book, side, price, prev_qty, new_qty, orders) is Some,
    ensures
        ({
            let after = requeued::<QM, MD>(
                queue_model,
                book,
                side,
                price,
                prev_qty,
                new_qty,
                orders,
            )->0;
            &&& after.len() == orders.len()
            &&& forall|i: int|
                0 <= i < orders.len() ==> {
                    let order = (#[trigger] orders[i]).1.order;
                    let moved = queue_model.after_depth(
                        terms_in_queue(order),
                        orders[i].1.queue_state,
                        prev_qty,
                        new_qty,
                        book,
                    );
                    &&& after[i].0 == orders[i].0
                    &&& after[i].1.order == order
                    &&& order.side == side && order.price@ == price@ ==> moved == Some(
                        after[i].1.queue_state,
                    )
                    &&& order.side != side || order.price@ != price@ ==> after[i] == orders[i]
                }
        }),
    decreases orders.len(),
{
    if orders.len() > 0 {
        let front = orders.drop_last();
        lemma_requeued::<QM, MD>(queue_model, book, side, price, prev_qty, new_qty, front);
        assert forall|i: int| 0 <= i < front.len() implies front[i] == orders[i] by {}
    }
}

/// A level that is set on one side moves the orders of that side at its price in the queue, and
/// leaves the places of all others. Where it makes the best price of its side better than before, or
/// the first, every order of the other side that the new best price reaches is filled: after a bid
/// no sell order at the best bid or below is left, and each is reported filled with all its open
/// quantity at its own price; likewise for an ask and the buy orders. All other orders stay.
#[verifier::spinoff_prover]
#[verifier::rlimit(60)]
pub proof fn better_prices_fill_the_orders_they_reach<
    AT: AssetType,
    LM: LatencyModel<Order, Order>,
    QM: QueueModel<MD>,
    MD: MarketDepth,
    FM: FeeModel,
>(
    venue: Venue<AT, FM, QM>,
    book: Book,
    counter: Counter<QM::State, LM>,
    event: Event,
    side: Side,
    i: int,
)
    requires
        is_exchange_level(event, side),
        orders_ok(counter.orders),
        0 <= i < counter.orders.len(),
        processed::<AT, LM, QM, MD, FM>(venue, book, counter, event) is Ok,
    ensures
        ({
            let after = processed::<AT, LM, QM, MD, FM>(venue, book, counter, event)->Ok_0;
            let id = counter.orders[i].0;
            let queued = counter.orders[i].1;
            let order = queued.order;
            let reached = match side {
                Side::Buy => after.0.best_bid matches Some(best) && (book.best_bid matches Some(
                    before,
                ) ==> before@ < best@) && order.side == Side::Sell && order.price@ <= best@,
                Side::Sell => after.0.best_ask matches Some(best) && (book.best_ask matches Some(
                    before,
                ) ==> best@ < before@) && order.side == Side::Buy && order.price@ >= best@,
            };
            let previous = match side {
                Side::Buy => lookup(book.bids, event.px@),
                Side::Sell => lookup(book.asks, event.px@),
            };
            let set = Book { ready: book.ready, ..after.0 };
            let moved = venue.queue_model.after_depth(
                terms_in_queue(order),
                queued.queue_state,
                match previous {
                    Some(qty) => qty,
                    None => Decimal::whole(0),
                },
                event.qty,
                set,
            );
            &&& after.1.to_local.take(counter.to_local.len() as int) =~= counter.to_local
            &&& reached ==> no_longer_rests(after.1.orders, id) && fill_reported(
                after.1.to_local,
                counter.to_local.len() as int,
                order,
                order.leaves_qty,
                event.exch_ts,
            )
            &&& !reached && order.side == side && order.price@ == event.px@ ==> moved is Some
                && after.1.orders.contains((id, QueuedOrder { queue_state: moved->0, order }))
            &&& !reached && !(order.side == side && order.price@ == event.px@)
                ==> after.1.orders.contains(counter.orders[i])
        }),
{
    lemma_exchange_flags(event.ev);
    lemma_identifiers_differ(counter.orders);
    let after = processed::<AT, LM, QM, MD, FM>(venue, book, counter, event)->Ok_0;
    let m = counter.to_local.len() as int;
    let set = match side {
        Side::Buy => book.bid_set(event.px, event.qty, event.exch_ts),
        Side::Sell => book.ask_set(event.px, event.qty, event.exch_ts),
    };
    assert(set == Book { ready: book.ready, ..after.0 });
    let prev_qty = match side {
        Side::Buy => quantity(book.bids, event.px@),
        Side::Sell => quantity(book.asks, event.px@),
    };
    let orders = requeued::<QM, MD>(
        venue.queue_model,
        set,
        side,
        event.px,
        prev_qty,
        event.qty,
        counter.orders,
    )->0;
    lemma_requeued::<QM, MD>(
        venue.queue_model,
        set,
        side,
        event.px,
        prev_qty,
        event.qty,
        counter.orders,
    );
    assert(orders[i].0 == counter.orders[i].0);
    assert forall|a: int, b: int| 0 <= a < b < orders.len() implies (#[trigger] orders[a]).0 != (
    #[trigger] orders[b]).0 by {
        assert(counter.orders[a].0 != counter.orders[b].0);
        assert(orders[a].0 == counter.orders[a].0 && orders[b].0 == counter.orders[b].0);
    }
    let (now, previously) = match side {
        Side::Buy => (set.best_bid, book.best_bid),
        Side::Sell => (set.best_ask, book.best_ask),
    };
    if improved(side, now, previously) {
        let trigger = match side {
            Side::Buy => Trigger::BestBid(now->0),
            Side::Sell => Trigger::BestAsk(now->0),
        };
        lemma_swept::<AT, LM, QM, MD, FM>(
            venue,
            set,
            trigger,
            event.exch_ts,
            orders,
            Counter { orders, ..counter },
            i,
        );
    } else {
        assert(after.1.orders =~= orders);
        assert(after.1.orders[i] == orders[i]);
        assert(after.1.to_local.take(m) =~= counter.to_local);
    }
}

/// Whether what placing an order leaves is the order ended with nothing more filled, and all else as
/// it was.
pub open spec fn ended_unfilled<S>(
    after: Placed<S>,
    ledger: Ledger<S>,
    order: Order,
    timestamp: i64,
) -> bool {
    &&& after.ledger == ledger
    &&& after.order == (Order { status: Status::Expired, exch_timestamp: timestamp, ..order })
}

/// Whether what placing an order leaves is the order in the book, at the end of the queue at its
/// price, with nothing traded and all other orders as they were. It is new, or partially filled
/// where it was filled before.
pub open spec fn rests_in_the_book<QM: QueueModel<MD>, MD: MarketDepth>(
    queue_model: QM,
    book: Book,
    after: Placed<QM::State>,
    ledger: Ledger<QM::State>,
    order: Order,
    timestamp: i64,
) -> bool {
    &&& after.order == (Order {
        status: if order.cum_exec_qty@ > 0 {
            Status::PartiallyFilled
        } else {
            Status::New
        },
        exch_timestamp: timestamp,
        ..order
    })
    &&& after.ledger.values == ledger.values
    &&& lookup(after.ledger.orders, order.order_id as int) matches Some(queued) && queued.order
        == after.order && queued.queue_state == queue_model.starting(
        OrderTerms { order_id: order.order_id, side: order.side, price: order.price },
        book,
    )
    &&& forall|id: int|
        id != order.order_id ==> #[trigger] lookup(after.ledger.orders, id) == lookup(
            ledger.orders,
            id,
        )
}

/// The fills of a taker at levels, in their order.
pub open spec fn taker_fills(levels: Seq<(Decimal, Decimal)>, timestamp: i64) -> Seq<OrderFill> {
    Seq::new(
        levels.len(),
        |k: int|
            OrderFill {
                price: levels[k].0,
                qty: levels[k].1,
                exch_timestamp: timestamp,
                is_maker: false,
            },
    )
}

/// A new order with an identifier that is in the book is refused, and nothing else is.
pub proof fn identifiers_are_not_reused<
    AT: AssetType,
    FM: FeeModel,
    QM: QueueModel<MD>,
    MD: MarketDepth,
>(
    venue: Venue<AT, FM, QM>,
    book: Book,
    ledger: Ledger<QM::State>,
    order: Order,
    timestamp: i64,
    validate_rule: bool,
)
    ensures
        holds(ledger.orders, order.order_id as int) ==> placed::<AT, FM, QM, MD>(
            venue,
            book,
            ledger,
            order,
            timestamp,
            validate_rule,
        ) == Err::<Placed<QM::State>, BacktestError>(BacktestError::OrderIdExist),
{
}

/// A limit order whose price the rule allows and that does not reach the other side rests in the
/// book, unless it must be filled at once: then it expires. One that reaches the other side expires
/// where it is post-only.
pub proof fn limit_orders_rest_or_expire<
    AT: AssetType,
    FM: FeeModel,
    QM: QueueModel<MD>,
    MD: MarketDepth,
>(
    venue: Venue<AT, FM, QM>,
    book: Book,
    ledger: Ledger<QM::State>,
    order: Order,
    timestamp: i64,
    validate_rule: bool,
)
    requires
        order.order_type == OrdType::Limit,
        order.price_match == PriceMatch::Explicit,
        orders_ok(ledger.orders),
        !holds(ledger.orders, order.order_id as int),
        validate_rule ==> rule_satisfied(instruction_of(order), timestamp, venue.changes) == Ok::<
            bool,
            TickSizeError,
        >(true),
    ensures
        ({
            let r = placed::<AT, FM, QM, MD>(
                venue,
                book,
                ledger,
                order,
                timestamp,
                validate_rule,
            );
            if meets_the_market(order.side, order.price, book) {
                order.time_in_force == TimeInForce::GTX ==> (r matches Ok(after) && ended_unfilled(
                    after,
                    ledger,
                    order,
                    timestamp,
                ))
            } else {
                match order.time_in_force {
                    TimeInForce::GTC | TimeInForce::GTX => r matches Ok(after)
                        && rests_in_the_book::<QM, MD>(
                        venue.queue_model,
                        book,
                        after,
                        ledger,
                        order,
                        timestamp,
                    ),
                    TimeInForce::FOK | TimeInForce::IOC => r matches Ok(after) && ended_unfilled(
                        after,
                        ledger,
                        order,
                        timestamp,
                    ),
                }
            }
        }),
{
    lemma_inserted(
        ledger.orders,
        order.order_id,
        QueuedOrder {
            order: Order {
                status: if order.cum_exec_qty@ > 0 {
                    Status::PartiallyFilled
                } else {
                    Status::New
                },
                exch_timestamp: timestamp,
                ..order
            },
            queue_state: venue.queue_model.starting(terms_in_queue(order), book),
        },
    );
}

/// A limit order whose price the rule does not allow expires unfilled.
pub proof fn limit_orders_off_the_grid_expire<
    AT: AssetType,
    FM: FeeModel,
    QM: QueueModel<MD>,
    MD: MarketDepth,
>(
    venue: Venue<AT, FM, QM>,
    book: Book,
    ledger: Ledger<QM::State>,
    order: Order,
    timestamp: i64,
    tick_size: Decimal,
)
    requires
        order.order_type == OrdType::Limit,
        order.price_match == PriceMatch::Explicit,
        !holds(ledger.orders, order.order_id as int),
        tick_size_at(venue.changes, timestamp) == Ok::<Decimal, TickSizeError>(tick_size),
        tick_size@ != 0,
        order.price@ % tick_size@ != 0,
    ensures
        placed::<AT, FM, QM, MD>(venue, book, ledger, order, timestamp, true) matches Ok(after)
            && ended_unfilled(after, ledger, order, timestamp),
{
}

/// What a row of fills does, from the first one on.
proof fn lemma_first_fill<AT: AssetType, FM: FeeModel>(
    values: StateValues,
    asset_type: AT,
    fee_model: FM,
    side: Side,
    fills: Seq<OrderFill>,
)
    requires
        fills.len() > 0,
    ensures
        all_filled_values(values, asset_type, fee_model, side, fills) == (match filled_values(
            values,
            asset_type,
            fee_model,
            side,
            fills[0],
        ) {
            None => None,
            Some(first) => all_filled_values(first, asset_type, fee_model, side, fills.skip(1)),
        }),
    decreases fills.len(),
{
    let front = fills.drop_last();
    if fills.len() == 1 {
        assert(front =~= Seq::empty());
        assert(fills.skip(1) =~= Seq::empty());
    } else {
        lemma_first_fill(values, asset_type, fee_model, side, front);
        assert(front[0] == fills[0]);
        assert(fills.skip(1).drop_last() =~= front.skip(1));
        assert(fills.skip(1).last() == fills.last());
    }
}

/// What taking all the levels of a plan adds up to.
#[verifier::spinoff_prover]
#[verifier::rlimit(30)]
proof fn lemma_levels_add_up<AT: AssetType, FM: FeeModel, QM>(
    venue: Venue<AT, FM, QM>,
    values: StateValues,
    order: Order,
    timestamp: i64,
    qty: Decimal,
    levels: Seq<(Decimal, Decimal)>,
    k: int,
    remaining: Decimal,
)
    requires
        0 <= k <= levels.len(),
        plan_of(qty, levels, remaining),
        left_after(qty, levels.take(k)) == Some(order.leaves_qty),
    ensures
        levels_filled(venue, values, order, timestamp, levels.skip(k)) matches Ok(after) ==> {
            &&& Some(after.1) == all_filled_values(
                values,
                venue.asset_type,
                venue.fee_model,
                order.side,
                taker_fills(levels.skip(k), timestamp),
            )
            &&& after.0.taker_price_level_count == order.taker_price_level_count + levels.len() - k
            &&& k < levels.len() ==> after.0.exec_price == levels.last().0 && after.0.exec_qty
                == levels.last().1 && !after.0.maker && after.0.exch_timestamp == timestamp
            &&& k == levels.len() ==> after.0 == order
            &&& after.0.order_id == order.order_id
            &&& after.0.qty == order.qty
            &&& after.0.price == order.price
            &&& after.0.side == order.side
            &&& after.0.order_type == order.order_type
            &&& after.0.time_in_force == order.time_in_force
        },
    decreases levels.len() - k,
{
    let rest = levels.skip(k);
    let fills = taker_fills(rest, timestamp);
    if k == levels.len() {
        assert(fills =~= Seq::empty());
    } else {
        assert(rest[0] == levels[k]);
        assert(rest.skip(1) =~= levels.skip(k + 1));
        assert(levels.take(k + 1).drop_last() =~= levels.take(k));
        lemma_first_fill(values, venue.asset_type, venue.fee_model, order.side, fills);
        assert(fills.skip(1) =~= taker_fills(levels.skip(k + 1), timestamp));
        match order_filled(venue, values, order, timestamp, false, levels[k].0, levels[k].1) {
            Err(_) => {},
            Ok(after) => {
                if k + 1 == levels.len() {
                    assert(levels.take(k + 1) =~= levels);
                    assert(levels.skip(k + 1) =~= Seq::empty());
                    assert(taker_fills(levels.skip(k + 1), timestamp) =~= Seq::empty());
                } else {
                    assert(left_after(qty, levels.take(k + 1)) matches Some(left) && left@ > 0);
                }
                lemma_levels_add_up(
                    venue,
                    after.1,
                    after.0,
                    timestamp,
                    qty,
                    levels,
                    k + 1,
                    remaining,
                );
            },
        }
    }
}

/// An order that takes the market trades its whole plan, level by level, as a taker, and none of it
/// comes to rest in the book. Where the plan leaves nothing, it is filled. Where the plan leaves
/// something, an order that must be filled at once as a whole trades nothing and expires; a limit
/// order that lasts trades the rest at its own price; and every other order keeps what it traded and
/// expires with the rest open. An order with nothing to trade against expires so too.
#[verifier::spinoff_prover]
#[verifier::rlimit(60)]
pub proof fn takers_trade_their_whole_plan<
    AT: AssetType,
    FM: FeeModel,
    QM: QueueModel<MD>,
    MD: MarketDepth,
>(
    venue: Venue<AT, FM, QM>,
    book: Book,
    ledger: Ledger<QM::State>,
    order: Order,
    timestamp: i64,
    validate_rule: bool,
    levels: Seq<(Decimal, Decimal)>,
    remaining: Decimal,
)
    requires
        order.price_match == PriceMatch::Explicit,
        order.order_type == OrdType::Market || (meets_the_market(order.side, order.price, book)
            && order.time_in_force != TimeInForce::GTX),
        !holds(ledger.orders, order.order_id as int),
        validate_rule && order.order_type == OrdType::Limit ==> rule_satisfied(
            instruction_of(order),
            timestamp,
            venue.changes,
        ) == Ok::<bool, TickSizeError>(true),
        planned(order, book) == Some((levels, remaining)),
        levels.len() > 0 || remaining@ > 0,
    ensures
        ({
            let r = placed::<AT, FM, QM, MD>(
                venue,
                book,
                ledger,
                order,
                timestamp,
                validate_rule,
            );
            let fills = taker_fills(levels, timestamp);
            let lasts = order.order_type == OrdType::Limit && order.time_in_force
                == TimeInForce::GTC;
            &&& order.time_in_force == TimeInForce::FOK && remaining@ > 0 ==> (r matches Ok(after)
                && ended_unfilled(after, ledger, order, timestamp))
            &&& levels.len() == 0 && !lasts ==> (r matches Ok(after) && ended_unfilled(
                after,
                ledger,
                order,
                timestamp,
            ))
            &&& !(order.time_in_force == TimeInForce::FOK && remaining@ > 0) ==> (r matches Ok(
                after,
            ) ==> {
                &&& after.ledger.orders == ledger.orders
                &&& after.order.order_id == order.order_id
                &&& after.order.qty == order.qty
                &&& after.order.exch_timestamp == timestamp
                &&& remaining@ <= 0 ==> {
                    &&& after.order.status == Status::Filled
                    &&& after.order.leaves_qty == remaining
                    &&& after.order.exec_price == levels.last().0
                    &&& !after.order.maker
                    &&& after.order.taker_price_level_count == order.taker_price_level_count
                        + levels.len()
                    &&& Some(after.ledger.values) == all_filled_values(
                        ledger.values,
                        venue.asset_type,
                        venue.fee_model,
                        order.side,
                        fills,
                    )
                }
                &&& remaining@ > 0 && lasts ==> {
                    &&& after.order.exec_price == order.price
                    &&& after.order.exec_qty == remaining
                    &&& !after.order.maker
                    &&& remaining.difference(remaining) == Some(after.order.leaves_qty)
                    &&& after.order.taker_price_level_count == order.taker_price_level_count
                        + levels.len() + 1
                    &&& Some(after.ledger.values) == all_filled_values(
                        ledger.values,
                        venue.asset_type,
                        venue.fee_model,
                        order.side,
                        fills.push(
                            OrderFill {
                                price: order.price,
                                qty: remaining,
                                exch_timestamp: timestamp,
                                is_maker: false,
                            },
                        ),
                    )
                }
                &&& remaining@ > 0 && !lasts ==> {
                    &&& after.order.status == Status::Expired
                    &&& after.order.leaves_qty == remaining
                    &&& after.order.taker_price_level_count == order.taker_price_level_count
                        + levels.len()
                    &&& Some(after.ledger.values) == all_filled_values(
                        ledger.values,
                        venue.asset_type,
                        venue.fee_model,
                        order.side,
                        fills,
                    )
                }
            })
        }),
{
    let start = plan_start(order);
    lemma_walk_plans(opposite_levels(order.side, book), start, order.leaves_qty);
    assert(levels.take(0) =~= Seq::empty());
    assert(levels.skip(0) =~= levels);
    lemma_plan_is_taken(
        venue,
        ledger.values,
        order,
        timestamp,
        order.leaves_qty,
        levels,
        0,
        remaining,
    );
    lemma_levels_add_up(
        venue,
        ledger.values,
        order,
        timestamp,
        order.leaves_qty,
        levels,
        0,
        remaining,
    );
    let fills = taker_fills(levels, timestamp);
    let last = OrderFill {
        price: order.price,
        qty: remaining,
        exch_timestamp: timestamp,
        is_maker: false,
    };
    assert(fills.push(last).drop_last() =~= fills);
    assert(fills.push(last).last() == last);
}

/// A request to cancel takes an order out of the book, as canceled and with what was filled of it,
/// and nothing else changes; one for an order that is not in the book is rejected and changes
/// nothing.
pub proof fn cancellations_remove_the_order<
    AT: AssetType,
    FM: FeeModel,
    QM: QueueModel<MD>,
    MD: MarketDepth,
>(
    venue: Venue<AT, FM, QM>,
    book: Book,
    ledger: Ledger<QM::State>,
    request: Order,
    timestamp: i64,
    id: int,
)
    requires
        orders_ok(ledger.orders),
        request.req == Status::Canceled,
    ensures
        acted::<AT, FM, QM, MD>(venue, book, ledger, request, timestamp) matches Ok(after) && {
            &&& after.ledger.values == ledger.values
            &&& lookup(after.ledger.orders, request.order_id as int) is None
            &&& id != request.order_id ==> lookup(after.ledger.orders, id) == lookup(
                ledger.orders,
                id,
            )
            &&& match lookup(ledger.orders, request.order_id as int) {
                Some(queued) => after.order == (Order {
                    status: Status::Canceled,
                    exch_timestamp: timestamp,
                    ..queued.order
                }),
                None => after.ledger == ledger && after.order == (Order {
                    req: Status::Rejected,
                    exch_timestamp: timestamp,
                    ..request
                }),
            }
        },
{
    lemma_removed(ledger.orders, request.order_id as int);
}

/// A request to modify a limit order in the book that carries its new price, where the rule allows
/// it, replaces the order: it keeps what was filled of it, and goes to the end of the queue at the
/// new price with the new quantity, less what was filled, where it does not reach the other side. A
/// post-only order that would reach the other side is canceled instead, and so is an order of which
/// the new quantity leaves nothing. Nothing is traded in these cases.
#[verifier::spinoff_prover]
#[verifier::rlimit(30)]
pub proof fn modified_orders_are_placed_anew<
    AT: AssetType,
    FM: FeeModel,
    QM: QueueModel<MD>,
    MD: MarketDepth,
>(
    venue: Venue<AT, FM, QM>,
    book: Book,
    ledger: Ledger<QM::State>,
    request: Order,
    timestamp: i64,
    existing: Order,
    leaves_qty: Decimal,
)
    requires
        orders_ok(ledger.orders),
        request.req == Status::Replaced,
        request.price_match == PriceMatch::Explicit,
        lookup(ledger.orders, request.order_id as int) matches Some(queued) && queued.order
            == existing,
        existing.order_id == request.order_id,
        existing.req != Status::Rejected,
        existing.order_type == OrdType::Limit,
        existing.time_in_force == TimeInForce::GTC || existing.time_in_force == TimeInForce::GTX,
        rule_satisfied(instruction_of(request), timestamp, venue.changes) == Ok::<
            bool,
            TickSizeError,
        >(true),
        request.qty.difference(existing.cum_exec_qty) == Some(leaves_qty),
    ensures
        ({
            let r = acted::<AT, FM, QM, MD>(venue, book, ledger, request, timestamp);
            let used_up = existing.cum_exec_qty@ > 0 && request.qty@ <= existing.cum_exec_qty@;
            let meets = meets_the_market(existing.side, request.price, book);
            &&& used_up || (meets && existing.time_in_force == TimeInForce::GTX) ==> (r matches Ok(
                after,
            ) && {
                &&& after.ledger.values == ledger.values
                &&& lookup(after.ledger.orders, request.order_id as int) is None
                &&& after.order == (Order {
                    status: Status::Canceled,
                    exch_timestamp: timestamp,
                    local_timestamp: request.local_timestamp,
                    price_match: PriceMatch::Explicit,
                    ..existing
                })
            })
            &&& !used_up && !meets ==> (r matches Ok(after) && {
                &&& after.ledger.values == ledger.values
                &&& after.order == (Order {
                    price: request.price,
                    price_match: PriceMatch::Explicit,
                    qty: request.qty,
                    leaves_qty,
                    status: if existing.cum_exec_qty@ > 0 {
                        Status::PartiallyFilled
                    } else {
                        Status::New
                    },
                    exch_timestamp: timestamp,
                    local_timestamp: request.local_timestamp,
                    ..existing
                })
                &&& lookup(after.ledger.orders, request.order_id as int) matches Some(queued)
                    && queued.order == after.order && queued.queue_state
                    == venue.queue_model.starting(
                    OrderTerms {
                        order_id: request.order_id,
                        side: existing.side,
                        price: request.price,
                    },
                    book,
                )
            })
            &&& !used_up && meets && existing.time_in_force == TimeInForce::GTC ==> (r matches Ok(
                after,
            ) ==> lookup(after.ledger.orders, request.order_id as int) is None)
        }),
{
    lemma_removed(ledger.orders, request.order_id as int);
    let again = Order {
        price: request.price,
        price_match: PriceMatch::Explicit,
        qty: request.qty,
        leaves_qty,
        status: if existing.cum_exec_qty@ > 0 {
            Status::PartiallyFilled
        } else {
            Status::New
        },
        exch_timestamp: timestamp,
        local_timestamp: request.local_timestamp,
        ..existing
    };
    lemma_inserted(
        removed(ledger.orders, request.order_id as int),
        request.order_id,
        QueuedOrder {
            order: again,
            queue_state: venue.queue_model.starting(terms_in_queue(again), book),
        },
    );
}

/// A request that is none of the three known kinds is refused as invalid.
pub proof fn unknown_requests_are_refused<
    AT: AssetType,
    FM: FeeModel,
    QM: QueueModel<MD>,
    MD: MarketDepth,
>(
    venue: Venue<AT, FM, QM>,
    book: Book,
    ledger: Ledger<QM::State>,
    request: Order,
    timestamp: i64,
)
    requires
        request.req != Status::New,
        request.req != Status::Canceled,
        request.req != Status::Replaced,
    ensures
        acted::<AT, FM, QM, MD>(venue, book, ledger, request, timestamp) == Err::<
            Placed<QM::State>,
            BacktestError,
        >(BacktestError::InvalidOrderRequest),
{
}

/// What market data does to the book of the exchange. A level of a side is set at the time of the
/// exchange; one of a snapshot also makes the book ready. A clear removes the range of its side to
/// its price, or both sides altogether where it names none, and touches no order. A trade, and what
/// the exchange does not see, leaves the book; the latter also leaves the orders.
pub proof fn exchange_books_follow_exchange_events<
    AT: AssetType,
    LM: LatencyModel<Order, Order>,
    QM: QueueModel<MD>,
    MD: MarketDepth,
    FM: FeeModel,
>(
    venue: Venue<AT, FM, QM>,
    book: Book,
    counter: Counter<QM::State, LM>,
    event: Event,
)
    ensures
        ({
            let r = processed::<AT, LM, QM, MD, FM>(venue, book, counter, event);
            let kind = kind_of(event.ev);
            let seen = event.ev & EXCH_EVENT != 0;
            let set = if event.ev & BUY_EVENT != 0 {
                book.bid_set(event.px, event.qty, event.exch_ts)
            } else {
                book.ask_set(event.px, event.qty, event.exch_ts)
            };
            let sided = event.ev & BUY_EVENT != 0 || event.ev & SELL_EVENT != 0;
            &&& !seen ==> (r matches Ok(after) && after.0 == book && after.1 == counter)
            &&& kind == TRADE_EVENT ==> (r matches Ok(after) ==> after.0 == book)
            &&& seen && sided && kind == DEPTH_EVENT ==> (r matches Ok(after) ==> after.0 == set)
            &&& seen && sided && kind == DEPTH_SNAPSHOT_EVENT ==> (r matches Ok(after) ==> after.0
                == (Book { ready: true, ..set }))
            &&& seen && kind == DEPTH_CLEAR_EVENT ==> (r matches Ok(after) && {
                &&& after.1 == counter
                &&& of_side(event.ev, Side::Buy) ==> after.0 == book.cleared(
                    Side::Buy,
                    Some(event.px),
                )
                &&& of_side(event.ev, Side::Sell) ==> after.0 == book.cleared(
                    Side::Sell,
                    Some(event.px),
                )
                &&& !sided ==> after.0.bids.len() == 0 && after.0.asks.len() == 0
                    && after.0.best_bid is None && after.0.best_ask is None
            })
        }),
{
    lemma_exchange_flags(event.ev);
}

/// The answer to a request is the order as the request left it, and the orders in the book and what
/// was traded are then what the request left.
pub proof fn answers_tell_what_became_of_the_request<
    AT: AssetType,
    LM: LatencyModel<Order, Order>,
    QM: QueueModel<MD>,
    MD: MarketDepth,
    FM: FeeModel,
>(
    venue: Venue<AT, FM, QM>,
    book: Book,
    counter: Counter<QM::State, LM>,
    request: Order,
    timestamp: i64,
)
    requires
        answered::<AT, LM, QM, MD, FM>(venue, book, counter, request, timestamp) is Ok,
    ensures
        ({
            let after = answered::<AT, LM, QM, MD, FM>(
                venue,
                book,
                counter,
                request,
                timestamp,
            )->Ok_0;
            let ledger = Ledger { orders: counter.orders, values: counter.values };
            acted::<AT, FM, QM, MD>(venue, book, ledger, request, timestamp) matches Ok(done) && {
                &&& after.orders == done.ledger.orders
                &&& after.values == done.ledger.values
                &&& after.to_local.len() == counter.to_local.len() + 1
                &&& after.to_local.drop_last() =~= counter.to_local
                &&& after.to_local.last().0 == done.order
            }
        }),
{
}

/// A request for a new order places it with its terms, and the answer carries no request any more.
pub proof fn new_orders_are_placed<
    AT: AssetType,
    FM: FeeModel,
    QM: QueueModel<MD>,
    MD: MarketDepth,
>(
    venue: Venue<AT, FM, QM>,
    book: Book,
    ledger: Ledger<QM::State>,
    request: Order,
    timestamp: i64,
)
    requires
        request.req == Status::New,
    ensures
        acted::<AT, FM, QM, MD>(venue, book, ledger, request, timestamp) == placed::<
            AT,
            FM,
            QM,
            MD,
        >(venue, book, ledger, Order { req: Status::Unset, ..request }, timestamp, true),
{
}

/// A fill moves a quantity of an order from what is open to what is executed, and nothing else of
/// its quantity. The order is filled where nothing is left open, and else partially filled. A maker
/// trades at the price of the order, a taker at the price of the market, and only a taker counts a
/// price level. What is executed is worth its quantity times that price. An order that ended is not
/// filled. This is stated where nothing is rounded.
pub proof fn fills_move_quantity_from_open_to_executed<AT: AssetType, FM: FeeModel, QM>(
    venue: Venue<AT, FM, QM>,
    values: StateValues,
    order: Order,
    timestamp: i64,
    maker: bool,
    price: Decimal,
    qty: Decimal,
    executed: Decimal,
    open: Decimal,
    value: Decimal,
    total: Decimal,
)
    requires
        exact_sum(order.cum_exec_qty, qty, executed),
        exact_difference(order.leaves_qty, qty, open),
        maker ==> exact_product(qty, order.price, value),
        !maker ==> exact_product(qty, price, value),
        exact_sum(order.cum_exec_value, value, total),
    ensures
        order_filled(venue, values, order, timestamp, maker, price, qty) matches Ok((after, _))
            ==> {
            &&& after.cum_exec_qty@ + after.leaves_qty@ == order.cum_exec_qty@ + order.leaves_qty@
            &&& after.cum_exec_qty@ == order.cum_exec_qty@ + qty@
            &&& after.cum_exec_value@ == order.cum_exec_value@ + value@
            &&& after.status == Status::Filled <==> order.leaves_qty@ <= qty@
            &&& after.status == Status::PartiallyFilled <==> order.leaves_qty@ > qty@
            &&& after.maker == maker
            &&& after.exec_qty == qty
            &&& after.exec_price == (if maker {
                order.price
            } else {
                price
            })
            &&& after.taker_price_level_count == order.taker_price_level_count + (if maker {
                0int
            } else {
                1int
            })
            &&& after.exch_timestamp == timestamp
            &&& after.order_id == order.order_id
            &&& after.qty == order.qty
            &&& after.price == order.price
            &&& after.side == order.side
            &&& after.req == order.req
        },
        order.status == Status::Filled || order.status == Status::Canceled || order.status
            == Status::Expired ==> order_filled(venue, values, order, timestamp, maker, price, qty)
            == Err::<(Order, StateValues), BacktestError>(BacktestError::InvalidOrderStatus),
        order.status != Status::Filled && order.status != Status::Canceled && order.status
            != Status::Expired ==> (order_filled(
            venue,
            values,
            order,
            timestamp,
            maker,
            price,
            qty,
        ) matches Err(error) ==> error == BacktestError::Overflow),
{
}

/// What a sweep reports.
#[verifier::spinoff_prover]
#[verifier::rlimit(60)]
proof fn lemma_sweep_reports<
    AT: AssetType,
    LM: LatencyModel<Order, Order>,
    QM: QueueModel<MD>,
    MD: MarketDepth,
    FM: FeeModel,
>(
    venue: Venue<AT, FM, QM>,
    book: Book,
    trigger: Trigger,
    timestamp: i64,
    orders: Seq<(OrderId, QueuedOrder<QM::State>)>,
    counter: Counter<QM::State, LM>,
)
    requires
        forall|a: int, b: int|
            0 <= a < b < orders.len() ==> (#[trigger] orders[a]).1.order.order_id != (
            #[trigger] orders[b]).1.order.order_id,
        swept::<AT, LM, QM, MD, FM>(venue, book, trigger, timestamp, orders, counter) is Ok,
    ensures
        ({
            let after = swept::<AT, LM, QM, MD, FM>(
                venue,
                book,
                trigger,
                timestamp,
                orders,
                counter,
            )->Ok_0;
            let m = counter.to_local.len() as int;
            &&& m <= after.to_local.len()
            &&& after.orders.len() <= orders.len()
            &&& after.values.num_trades == counter.values.num_trades + (after.to_local.len() - m)
            &&& forall|k: int|
                m <= k < after.to_local.len() ==> exists|j: int|
                    0 <= j < orders.len() && reports_fill(
                        (#[trigger] after.to_local[k]).0,
                        (#[trigger] orders[j]).1.order,
                        after.to_local[k].0.exec_qty,
                        timestamp,
                    )
            &&& forall|k: int, l: int|
                m <= k < l < after.to_local.len() ==> (#[trigger] after.to_local[k]).0.order_id != (
                #[trigger] after.to_local[l]).0.order_id
        }),
    decreases orders.len(),
{
    if orders.len() > 0 {
        let front = orders.drop_last();
        let n = orders.len() - 1;
        let m = counter.to_local.len() as int;
        assert forall|a: int| 0 <= a < front.len() implies front[a] == orders[a] by {}
        let before = swept::<AT, LM, QM, MD, FM>(
            venue,
            book,
            trigger,
            timestamp,
            front,
            counter,
        )->Ok_0;
        let after = swept::<AT, LM, QM, MD, FM>(
            venue,
            book,
            trigger,
            timestamp,
            orders,
            counter,
        )->Ok_0;
        lemma_sweep_reports::<AT, LM, QM, MD, FM>(venue, book, trigger, timestamp, front, counter);
        let last = orders[n];
        assert(last == orders.last());
        let action = action_of::<QM, MD>(venue.queue_model, book, trigger, last.1);
        lemma_acted_on::<AT, LM, QM, MD, FM>(venue, before, last.0, last.1, action, timestamp);
        let k = before.to_local.len() as int;
        assert(after.to_local.len() <= k + 1);
        assert(after.to_local.len() == k + 1 ==> reports_fill(
            after.to_local[k].0,
            orders[n].1.order,
            after.to_local[k].0.exec_qty,
            timestamp,
        ));
        assert forall|l: int| m <= l < k implies exists|j: int|
            0 <= j < orders.len() && reports_fill(
                (#[trigger] after.to_local[l]).0,
                (#[trigger] orders[j]).1.order,
                after.to_local[l].0.exec_qty,
                timestamp,
            ) by {
            assert(after.to_local[l] == before.to_local[l]);
            let j = choose|j: int|
                0 <= j < front.len() && reports_fill(
                    before.to_local[l].0,
                    (#[trigger] front[j]).1.order,
                    before.to_local[l].0.exec_qty,
                    timestamp,
                );
            assert(orders[j] == front[j]);
        }
        assert forall|a: int, b: int| m <= a < b < after.to_local.len() implies (
        #[trigger] after.to_local[a]).0.order_id != (#[trigger] after.to_local[b]).0.order_id by {
            assert(after.to_local[a] == before.to_local[a]);
            if b < k {
                assert(after.to_local[b] == before.to_local[b]);
            } else {
                let j = choose|j: int|
                    0 <= j < front.len() && reports_fill(
                        before.to_local[a].0,
                        (#[trigger] front[j]).1.order,
                        before.to_local[a].0.exec_qty,
                        timestamp,
                    );
                assert(orders[j].1.order.order_id != orders[n].1.order.order_id);
            }
        }
    }
}

/// A trade reports nothing but fills, one for each order that it fills and none twice. Each counts
/// as one trade, and no order comes into the book.
pub proof fn trades_report_each_fill_once<
    AT: AssetType,
    LM: LatencyModel<Order, Order>,
    QM: QueueModel<MD>,
    MD: MarketDepth,
    FM: FeeModel,
>(
    venue: Venue<AT, FM, QM>,
    book: Book,
    counter: Counter<QM::State, LM>,
    event: Event,
    taker: Side,
)
    requires
        is_exchange_trade(event, taker),
        orders_ok(counter.orders),
        processed::<AT, LM, QM, MD, FM>(venue, book, counter, event) is Ok,
    ensures
        ({
            let after = processed::<AT, LM, QM, MD, FM>(venue, book, counter, event)->Ok_0.1;
            let m = counter.to_local.len() as int;
            &&& after.orders.len() <= counter.orders.len()
            &&& after.values.num_trades == counter.values.num_trades + (after.to_local.len() - m)
            &&& forall|k: int|
                m <= k < after.to_local.len() ==> exists|j: int|
                    0 <= j < counter.orders.len() && reports_fill(
                        (#[trigger] after.to_local[k]).0,
                        (#[trigger] counter.orders[j]).1.order,
                        after.to_local[k].0.exec_qty,
                        event.exch_ts,
                    )
            &&& forall|k: int, l: int|
                m <= k < l < after.to_local.len() ==> (#[trigger] after.to_local[k]).0.order_id != (
                #[trigger] after.to_local[l]).0.order_id
        }),
{
    lemma_exchange_flags(event.ev);
    lemma_identifiers_differ(counter.orders);
    assert forall|a: int, b: int| 0 <= a < b < counter.orders.len() implies (
    #[trigger] counter.orders[a]).1.order.order_id != (
    #[trigger] counter.orders[b]).1.order.order_id by {
        assert(counter.orders[a].0 != counter.orders[b].0);
    }
    let trigger = match taker {
        Side::Buy => Trigger::BuyTrade(event.px, event.qty),
        Side::Sell => Trigger::SellTrade(event.px, event.qty),
    };
    lemma_sweep_reports::<AT, LM, QM, MD, FM>(
        venue,
        book,
        trigger,
        event.exch_ts,
        counter.orders,
        counter,
    );
}

/// A limit order that names a level of the book is placed at the price of that level: it rests there
/// where that price does not reach the other side, unless it must be filled at once. Where it
/// reaches the other side it expires if it is post-only. Where there is no such level it expires
/// unfilled. The tick-size rule does not bind it.
pub proof fn orders_that_name_a_level_are_placed_there<
    AT: AssetType,
    FM: FeeModel,
    QM: QueueModel<MD>,
    MD: MarketDepth,
>(
    venue: Venue<AT, FM, QM>,
    book: Book,
    ledger: Ledger<QM::State>,
    order: Order,
    timestamp: i64,
    validate_rule: bool,
)
    requires
        order.order_type == OrdType::Limit,
        order.price_match != PriceMatch::Explicit,
        orders_ok(ledger.orders),
        !holds(ledger.orders, order.order_id as int),
    ensures
        ({
            let r = placed::<AT, FM, QM, MD>(
                venue,
                book,
                ledger,
                order,
                timestamp,
                validate_rule,
            );
            match resolved_price(instruction_of(order), book) {
                None => r matches Ok(after) && ended_unfilled(after, ledger, order, timestamp),
                Some(price) => {
                    let priced = Order { price, ..order };
                    if meets_the_market(order.side, price, book) {
                        &&& order.time_in_force == TimeInForce::GTX ==> (r matches Ok(after)
                            && ended_unfilled(after, ledger, priced, timestamp))
                        &&& order.time_in_force != TimeInForce::GTX ==> (r matches Ok(after)
                            ==> after.order.price == price && after.ledger.orders == ledger.orders)
                    } else {
                        match order.time_in_force {
                            TimeInForce::GTC | TimeInForce::GTX => r matches Ok(after)
                                && rests_in_the_book::<QM, MD>(
                                venue.queue_model,
                                book,
                                after,
                                ledger,
                                priced,
                                timestamp,
                            ),
                            TimeInForce::FOK | TimeInForce::IOC => r matches Ok(after)
                                && ended_unfilled(after, ledger, priced, timestamp),
                        }
                    }
                },
            }
        }),
{
    if let Some(price) = resolved_price(instruction_of(order), book) {
        let priced = Order { price, ..order };
        lemma_inserted(
            ledger.orders,
            order.order_id,
            QueuedOrder {
                order: Order {
                    status: if order.cum_exec_qty@ > 0 {
                        Status::PartiallyFilled
                    } else {
                        Status::New
                    },
                    exch_timestamp: timestamp,
                    ..priced
                },
                queue_state: venue.queue_model.starting(terms_in_queue(priced), book),
            },
        );
        if let Some(plan) = planned(priced, book) {
            let start = plan_start(priced);
            lemma_walk_plans(opposite_levels(order.side, book), start, order.leaves_qty);
            assert(plan.0.take(0) =~= Seq::empty());
            assert(plan.0.skip(0) =~= plan.0);
            lemma_levels_add_up(
                venue,
                ledger.values,
                priced,
                timestamp,
                order.leaves_qty,
                plan.0,
                0,
                plan.1,
            );
        }
    }
}

/// A new price that the rule does not allow is refused, and so is a level that the book does not
/// have; the order in the book stays as it is. A price that stays needs no rule.
pub proof fn modifications_need_a_price<
    AT: AssetType,
    FM: FeeModel,
    QM: QueueModel<MD>,
    MD: MarketDepth,
>(
    venue: Venue<AT, FM, QM>,
    book: Book,
    ledger: Ledger<QM::State>,
    request: Order,
    timestamp: i64,
    existing: Order,
)
    requires
        request.req == Status::Replaced,
        lookup(ledger.orders, request.order_id as int) matches Some(queued) && queued.order
            == existing,
    ensures
        ({
            let r = acted::<AT, FM, QM, MD>(venue, book, ledger, request, timestamp);
            let refused = r matches Ok(after) && after.ledger == ledger && after.order == (Order {
                req: Status::Rejected,
                exch_timestamp: timestamp,
                ..request
            });
            &&& existing.price@ != request.price@ && rule_satisfied(
                instruction_of(request),
                timestamp,
                venue.changes,
            ) == Ok::<bool, TickSizeError>(false) ==> refused
            &&& request.order_type == OrdType::Limit && request.price_match != PriceMatch::Explicit
                && resolved_price(instruction_of(request), book) is None ==> refused
            &&& existing.price@ == request.price@ && request.price_match == PriceMatch::Explicit
                && existing.req != Status::Rejected ==> (r matches Ok(after) ==> after.order.req
                != Status::Rejected)
        }),
{
    if existing.price@ == request.price@ && request.price_match == PriceMatch::Explicit
        && existing.req != Status::Rejected {
        lemma_replaced_keeps_request::<AT, FM, QM, MD>(
            venue,
            book,
            ledger,
            Order { req: Status::Unset, ..request },
            timestamp,
            existing,
        );
    }
}

/// What is placed again keeps the request that its order carried.
#[verifier::spinoff_prover]
#[verifier::rlimit(30)]
proof fn lemma_replaced_keeps_request<
    AT: AssetType,
    FM: FeeModel,
    QM: QueueModel<MD>,
    MD: MarketDepth,
>(
    venue: Venue<AT, FM, QM>,
    book: Book,
    ledger: Ledger<QM::State>,
    request: Order,
    timestamp: i64,
    existing: Order,
)
    requires
        lookup(ledger.orders, request.order_id as int) matches Some(queued) && queued.order
            == existing,
        existing.price@ == request.price@,
        request.price_match == PriceMatch::Explicit,
        existing.req != Status::Rejected,
    ensures
        modified::<AT, FM, QM, MD>(venue, book, ledger, request, timestamp) matches Ok(after)
            ==> after.order.req == existing.req,
{
    let left = canceled(ledger, request, timestamp);
    let order = Order {
        local_timestamp: request.local_timestamp,
        price_match: request.price_match,
        ..left.order
    };
    if let Some(leaves_qty) = request.qty.difference(order.cum_exec_qty) {
        let again = Order {
            price: request.price,
            qty: request.qty,
            leaves_qty,
            status: resting_status(order),
            ..order
        };
        if let Some(plan) = planned(again, book) {
            lemma_levels_keep_request(
                venue,
                left.ledger.values,
                again,
                timestamp,
                plan.0,
            );
        }
    }
}

/// Taking levels keeps the request that an order carries.
proof fn lemma_levels_keep_request<AT: AssetType, FM: FeeModel, QM>(
    venue: Venue<AT, FM, QM>,
    values: StateValues,
    order: Order,
    timestamp: i64,
    levels: Seq<(Decimal, Decimal)>,
)
    ensures
        levels_filled(venue, values, order, timestamp, levels) matches Ok(after) ==> after.0.req
            == order.req,
    decreases levels.len(),
{
    if levels.len() > 0 {
        if let Ok(after) = order_filled(
            venue,
            values,
            order,
            timestamp,
            false,
            levels[0].0,
            levels[0].1,
        ) {
            lemma_levels_keep_request(venue, after.1, after.0, timestamp, levels.skip(1));
        }
    }
}

} // verus!
