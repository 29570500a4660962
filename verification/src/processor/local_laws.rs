//! What the local side promises of requests, answers and market data.
use vstd::prelude::*;

use crate::assettype::AssetType;
use crate::depth::Book;
use crate::error::BacktestError;
use crate::lifecycle::NewOrder;
use crate::lifecycle::OrderModel;
use crate::lifecycle::OrderRequest;
use crate::lifecycle::OrderStatus;
use crate::lifecycle::OrderUpdate;
use crate::lifecycle::UpdateModel;
use crate::models::fee::FeeModel;
use crate::models::latency::LatencyModel;
use crate::processor::local::OrderRecords;
use crate::processor::local::Requests;
use crate::processor::local::TradeLog;
use crate::processor::local::all_received;
use crate::processor::local::asked;
use crate::processor::local::book_after;
use crate::processor::local::cancel_fault;
use crate::processor::local::handled_orders;
use crate::processor::local::is_trade;
use crate::processor::local::live_orders;
use crate::processor::local::modify_fault;
use crate::processor::local::received;
use crate::processor::local::submit_fault;
use crate::processor::local::trade_cutoff;
use crate::processor::local::trades_after;
use crate::processor::market_flags::of_side;
use crate::sorted_map::holds;
use crate::sorted_map::lemma_inserted;
use crate::sorted_map::lemma_removed;
use crate::sorted_map::lookup;
use crate::sorted_map::ordered;
use crate::state::all_filled_values;
use crate::types::BUY_EVENT;
use crate::types::DEPTH_CLEAR_EVENT;
use crate::types::DEPTH_EVENT;
use crate::types::DEPTH_SNAPSHOT_EVENT;
use crate::types::Event;
use crate::types::LOCAL_ASK_DEPTH_CLEAR_EVENT;
use crate::types::LOCAL_ASK_DEPTH_EVENT;
use crate::types::LOCAL_ASK_DEPTH_SNAPSHOT_EVENT;
use crate::types::LOCAL_BID_DEPTH_CLEAR_EVENT;
use crate::types::LOCAL_BID_DEPTH_EVENT;
use crate::types::LOCAL_BID_DEPTH_SNAPSHOT_EVENT;
use crate::types::LOCAL_DEPTH_CLEAR_EVENT;
use crate::types::LOCAL_EVENT;
use crate::types::LOCAL_TRADE_EVENT;
use crate::types::OrdType;
use crate::types::OrderId;
use crate::types::PriceMatch;
use crate::types::SELL_EVENT;
use crate::types::Side;
use crate::types::TRADE_EVENT;
use crate::types::flag_is;
use crate::types::kind_of;

verus! {

/// Which new orders may be submitted: those whose identifier is neither that of a known order nor
/// that of a request under way, and which carry their price or are limit orders. A wrong way to find
/// the price is reported before an identifier that exists.
pub proof fn new_orders_need_a_new_identifier(
    orders: Seq<(OrderId, OrderModel)>,
    pending: Seq<(OrderId, OrderRequest)>,
    order: NewOrder,
)
    ensures
        ({
            let id = order.order_id as int;
            let priced = order.price_match == PriceMatch::Explicit || order.order_type
                == OrdType::Limit;
            let known = holds(orders, id) || holds(pending, id);
            &&& submit_fault(orders, pending, order) is None <==> priced && !known
            &&& !priced ==> submit_fault(orders, pending, order) == Some(
                BacktestError::InvalidOrderRequest,
            )
            &&& priced && known ==> submit_fault(orders, pending, order) == Some(
                BacktestError::OrderIdExist,
            )
        }),
{
}

/// Which orders may be modified or canceled: open ones that are known and for which no request is
/// under way. A modification must also leave a market order with a price that it carries.
pub proof fn only_open_orders_without_a_request_are_changed(
    orders: Seq<(OrderId, OrderModel)>,
    pending: Seq<(OrderId, OrderRequest)>,
    order_id: OrderId,
    price_match: PriceMatch,
)
    ensures
        ({
            let id = order_id as int;
            let cancel = cancel_fault(orders, pending, order_id);
            let modify = modify_fault(orders, pending, order_id, price_match);
            match lookup(orders, id) {
                None => cancel == Some(BacktestError::OrderNotFound) && modify == Some(
                    BacktestError::OrderNotFound,
                ),
                Some(order) => {
                    let priced = price_match == PriceMatch::Explicit || order.order_type
                        == OrdType::Limit;
                    &&& holds(pending, id) ==> cancel == Some(BacktestError::OrderRequestInProcess)
                        && modify == Some(BacktestError::OrderRequestInProcess)
                    &&& !holds(pending, id) && order.status == OrderStatus::Open ==> cancel is None
                    &&& !holds(pending, id) && order.status != OrderStatus::Open ==> cancel == Some(
                        BacktestError::InvalidOrderStatus,
                    )
                    &&& !holds(pending, id) && !priced ==> modify == Some(
                        BacktestError::InvalidOrderRequest,
                    )
                    &&& !holds(pending, id) && priced && order.status == OrderStatus::Open
                        ==> modify is None
                    &&& !holds(pending, id) && priced && order.status != OrderStatus::Open
                        ==> modify == Some(BacktestError::InvalidOrderStatus)
                },
            }
        }),
{
}

/// A request that is sent takes the next number and leaves the one behind it for the next request.
/// It goes behind the requests that are under way, and the requests for other orders are waited for
/// as before.
pub proof fn requests_are_numbered_one_by_one<LM: LatencyModel<OrderRequest, OrderUpdate>>(
    requests: Requests<LM>,
    request: OrderRequest,
    timestamp: i64,
    other: int,
)
    requires
        ordered(requests.pending),
    ensures
        asked(requests, request, timestamp) matches Ok(after) ==> {
            &&& after.next_request_id == requests.next_request_id + 1
            &&& after.to_exch.len() == requests.to_exch.len() + 1
            &&& after.to_exch.drop_last() =~= requests.to_exch
            &&& after.to_exch.last().0 == request
            &&& lookup(after.pending, request.about() as int) == Some(request)
            &&& other != request.about() ==> lookup(after.pending, other) == lookup(
                requests.pending,
                other,
            )
        },
        requests.next_request_id == u64::MAX ==> asked(requests, request, timestamp) == Err::<
            Requests<LM>,
            BacktestError,
        >(BacktestError::Overflow),
{
    lemma_inserted(requests.pending, request.about(), request);
}

/// Clearing forgets every order that is neither open nor waits for an answer.
pub proof fn only_live_orders_are_kept(
    orders: Seq<(OrderId, OrderModel)>,
    pending: Seq<(OrderId, OrderRequest)>,
    k: int,
)
    requires
        0 <= k < live_orders(orders, pending).len(),
    ensures
        ({
            let kept = live_orders(orders, pending)[k];
            &&& orders.contains(kept)
            &&& kept.1.status == OrderStatus::Open || holds(pending, kept.0 as int)
        }),
    decreases orders.len(),
{
    if orders.len() > 0 {
        let front = orders.drop_last();
        let before = live_orders(front, pending);
        let kept = live_orders(orders, pending)[k];
        if k < before.len() {
            only_live_orders_are_kept(front, pending, k);
            let i = choose|i: int| 0 <= i < front.len() && front[i] == kept;
            assert(orders[i] == kept);
        } else {
            assert(orders[orders.len() - 1] == kept);
        }
    }
}

/// An update for a known order adds its fills to that order and to what was traded, takes over what
/// it says of the order, and leaves every other order. One that answers no request leaves the
/// requests, the answers and the times as they are.
pub proof fn updates_change_only_their_order<AT: AssetType, FM: FeeModel>(
    asset_type: AT,
    fee_model: FM,
    records: OrderRecords,
    update: UpdateModel,
    timestamp: i64,
    other: int,
)
    requires
        ordered(records.orders),
        ordered(records.pending),
        ordered(records.results),
        lookup(records.orders, update.order_id as int) is Some,
    ensures
        ({
            let r = received(asset_type, fee_model, records, update, timestamp);
            let id = update.order_id as int;
            let order = lookup(records.orders, id)->0;
            &&& r matches Err(error) ==> error == BacktestError::Overflow
            &&& r matches Ok(after) ==> {
                &&& lookup(after.orders, id) matches Some(now) && {
                    &&& now.fills == order.fills + update.fills
                    &&& now.order_id == order.order_id
                    &&& now.side == order.side
                    &&& update.state matches Some(state) ==> now.status == state.status
                        && now.price == state.price && now.qty == state.qty && now.price_match
                        == state.price_match && now.exch_timestamp == update.exch_timestamp
                }
                &&& Some(after.values) == all_filled_values(
                    records.values,
                    asset_type,
                    fee_model,
                    order.side,
                    update.fills,
                )
                &&& other != id ==> lookup(after.orders, other) == lookup(records.orders, other)
                &&& other != id ==> lookup(after.pending, other) == lookup(records.pending, other)
                &&& other != id ==> lookup(after.results, other) == lookup(records.results, other)
                &&& update.request_result is None ==> after.pending == records.pending
                    && after.results == records.results && after.last_order_latency
                    == records.last_order_latency
            }
        }),
{
    let id = update.order_id as int;
    let order = lookup(records.orders, id)->0;
    lemma_removed(records.pending, id);
    if let Some(result) = update.request_result {
        lemma_inserted(records.results, update.order_id, result);
    }
    if order.with_fills(update.fills) is Some {
        crate::lifecycle::fills_leave_the_terms(order, update.fills);
        let after = crate::processor::local::order_updated(
            asset_type,
            fee_model,
            records.values,
            order,
            update,
        );
        if after is Some {
            lemma_inserted(records.orders, update.order_id, (after->0).0);
        }
    }
}

/// An update that says something of an order that is not known is refused, unless it answers the
/// submission of that order; then the order is known from then on.
pub proof fn orders_become_known_by_their_answer<AT: AssetType, FM: FeeModel>(
    asset_type: AT,
    fee_model: FM,
    records: OrderRecords,
    update: UpdateModel,
    timestamp: i64,
)
    requires
        ordered(records.orders),
        lookup(records.orders, update.order_id as int) is None,
        update.state is Some,
    ensures
        ({
            let r = received(asset_type, fee_model, records, update, timestamp);
            let request = lookup(records.pending, update.order_id as int);
            let submission = request is Some && request->0 is New && update.request_result is Some
                && request->0.id() == update.request_result->0.request_id;
            &&& !submission ==> r == Err::<OrderRecords, BacktestError>(
                BacktestError::InvalidOrderRequest,
            )
            &&& r matches Ok(after) ==> submission && lookup(
                after.orders,
                update.order_id as int,
            ) is Some
        }),
{
    let id = update.order_id;
    if let Some(OrderRequest::New { order, .. }) = lookup(records.pending, id as int) {
        let first = OrderModel::placed(order);
        lemma_inserted(records.orders, id, first);
        let orders = crate::sorted_map::inserted(records.orders, id, first);
        let after = crate::processor::local::order_updated(
            asset_type,
            fee_model,
            records.values,
            first,
            update,
        );
        if after is Some {
            lemma_inserted(orders, id, (after->0).0);
        }
    }
}

/// The times that are remembered of a request are when it was made, when the exchange handled it and
/// when its answer is received.
pub proof fn answers_tell_the_times_of_a_request<AT: AssetType, FM: FeeModel>(
    asset_type: AT,
    fee_model: FM,
    records: OrderRecords,
    update: UpdateModel,
    timestamp: i64,
    request: OrderRequest,
)
    requires
        lookup(records.pending, update.order_id as int) == Some(request),
        update.request_result matches Some(result) && result.request_id == request.id(),
    ensures
        received(asset_type, fee_model, records, update, timestamp) matches Ok(after)
            ==> after.last_order_latency == Some(
            (request.made_at(), update.exch_timestamp, timestamp),
        ),
{
}

/// The answer that is waited for counts as received exactly where one of the updates that are due
/// answers a request about that order; the updates that are due are taken one after the other, and
/// the others stay under way.
pub proof fn the_answer_that_is_waited_for_is_noticed<AT: AssetType, FM: FeeModel>(
    asset_type: AT,
    fee_model: FM,
    records: OrderRecords,
    updates: Seq<(UpdateModel, i64)>,
    timestamp: i64,
    order_id: Option<OrderId>,
    answered: bool,
)
    ensures
        all_received(
            asset_type,
            fee_model,
            records,
            updates,
            timestamp,
            order_id,
            answered,
        ) matches Ok(after) ==> {
            let n = updates.len() - after.1.len();
            &&& 0 <= n
            &&& after.1 =~= updates.skip(n)
            &&& forall|i: int| 0 <= i < n ==> (#[trigger] updates[i]).1 == timestamp
            &&& n < updates.len() ==> updates[n].1 != timestamp
            &&& after.2 <==> answered || exists|i: int|
                0 <= i < n && order_id == Some((#[trigger] updates[i]).0.order_id)
                    && updates[i].0.request_result is Some
        },
    decreases updates.len(),
{
    if updates.len() > 0 && updates[0].1 == timestamp {
        if let Ok(next) = received(asset_type, fee_model, records, updates[0].0, timestamp) {
            let rest = updates.skip(1);
            let first = order_id == Some(updates[0].0.order_id) && updates[0].0.request_result
                is Some;
            the_answer_that_is_waited_for_is_noticed(
                asset_type,
                fee_model,
                next,
                rest,
                timestamp,
                order_id,
                answered || first,
            );
            if let Ok(after) = all_received(
                asset_type,
                fee_model,
                next,
                rest,
                timestamp,
                order_id,
                answered || first,
            ) {
                let n = updates.len() - after.1.len();
                assert(rest.skip(n - 1) =~= updates.skip(n));
                assert forall|i: int| 0 <= i < n implies (#[trigger] updates[i]).1
                    == timestamp by {
                    if i > 0 {
                        assert(rest[i - 1] == updates[i]);
                    }
                }
                if n < updates.len() {
                    assert(rest[n - 1] == updates[n]);
                }
                if exists|i: int|
                    0 <= i < n - 1 && order_id == Some((#[trigger] rest[i]).0.order_id)
                        && rest[i].0.request_result is Some {
                    let i = choose|i: int|
                        0 <= i < n - 1 && order_id == Some((#[trigger] rest[i]).0.order_id)
                            && rest[i].0.request_result is Some;
                    assert(updates[i + 1] == rest[i]);
                }
                if exists|i: int|
                    0 <= i < n && order_id == Some((#[trigger] updates[i]).0.order_id)
                        && updates[i].0.request_result is Some {
                    let i = choose|i: int|
                        0 <= i < n && order_id == Some((#[trigger] updates[i]).0.order_id)
                            && updates[i].0.request_result is Some;
                    if i > 0 {
                        assert(rest[i - 1] == updates[i]);
                    }
                }
            }
        }
    } else {
        assert(updates.skip(0) =~= updates);
    }
}

/// A log that records says since when it holds every trade: since it was first moved, or since the
/// horizon where that is later. That time never goes back, and the log is at the time it was moved
/// to. A log that does not record keeps its trades as they are.
pub proof fn logs_say_since_when_they_are_complete(
    log: TradeLog,
    horizon: Option<u128>,
    timestamp: i64,
)
    ensures
        ({
            let off = log.at(false, horizon, timestamp);
            let on = log.at(true, horizon, timestamp);
            &&& off.trades == log.trades && off.since == log.since && off.time == timestamp
            &&& on.time == timestamp
            &&& on.since is Some
            &&& log.since matches Some(before) ==> before <= on.since->0
            &&& log.since is None && horizon is None ==> on.since == Some(timestamp)
            &&& log.since matches Some(before) ==> (horizon is None ==> on.since == Some(before))
            &&& horizon matches Some(length) ==> {
                &&& on.since->0 >= timestamp - length
                &&& log.since matches Some(before) ==> (before >= timestamp - length
                    ==> on.since == Some(before))
                &&& log.since matches Some(before) ==> (before < timestamp - length ==> on.since->0
                    == timestamp - length)
                &&& log.since is None ==> on.since == Some(timestamp)
            }
        }),
{
}

/// What a log forgets is a row of trades at its front, each at the horizon or older; the first trade
/// that it keeps is younger.
pub proof fn logs_forget_from_the_front(trades: Seq<Event>, timestamp: i64, horizon: u128)
    ensures
        ({
            let kept = trades_after(trades, trade_cutoff(timestamp, horizon));
            let n = trades.len() - kept.len();
            &&& 0 <= n
            &&& kept =~= trades.skip(n)
            &&& kept.len() > 0 ==> kept[0].local_ts > timestamp - horizon
            &&& timestamp - horizon >= i64::MIN ==> forall|i: int|
                0 <= i < n ==> (#[trigger] trades[i]).local_ts <= timestamp - horizon
        }),
    decreases trades.len(),
{
    let cutoff = trade_cutoff(timestamp, horizon);
    if trades.len() > 0 && trades[0].local_ts <= cutoff {
        let rest = trades.skip(1);
        logs_forget_from_the_front(rest, timestamp, horizon);
        let kept = trades_after(trades, cutoff);
        let n = trades.len() - kept.len();
        assert(rest.skip(n - 1) =~= trades.skip(n));
        if timestamp - horizon >= i64::MIN {
            assert forall|i: int| 0 <= i < n implies (#[trigger] trades[i]).local_ts <= timestamp
                - horizon by {
                if i > 0 {
                    assert(rest[i - 1] == trades[i]);
                }
            }
        }
    } else {
        assert(trades.skip(0) =~= trades);
    }
}

/// What the flags of market data say to the local side, bit by bit.
proof fn lemma_local_flags(ev: u64)
    ensures
        flag_is(ev, LOCAL_TRADE_EVENT) == (kind_of(ev) == TRADE_EVENT && ev & LOCAL_EVENT != 0),
        flag_is(ev, LOCAL_DEPTH_CLEAR_EVENT) == (kind_of(ev) == DEPTH_CLEAR_EVENT && ev
            & LOCAL_EVENT != 0),
        flag_is(ev, LOCAL_BID_DEPTH_EVENT) == (kind_of(ev) == DEPTH_EVENT && ev & LOCAL_EVENT != 0
            && ev & BUY_EVENT != 0),
        flag_is(ev, LOCAL_ASK_DEPTH_EVENT) == (kind_of(ev) == DEPTH_EVENT && ev & LOCAL_EVENT != 0
            && ev & SELL_EVENT != 0),
        flag_is(ev, LOCAL_BID_DEPTH_SNAPSHOT_EVENT) == (kind_of(ev) == DEPTH_SNAPSHOT_EVENT && ev
            & LOCAL_EVENT != 0 && ev & BUY_EVENT != 0),
        flag_is(ev, LOCAL_ASK_DEPTH_SNAPSHOT_EVENT) == (kind_of(ev) == DEPTH_SNAPSHOT_EVENT && ev
            & LOCAL_EVENT != 0 && ev & SELL_EVENT != 0),
        flag_is(ev, LOCAL_BID_DEPTH_CLEAR_EVENT) == (kind_of(ev) == DEPTH_CLEAR_EVENT && ev
            & LOCAL_EVENT != 0 && ev & BUY_EVENT != 0),
        flag_is(ev, LOCAL_ASK_DEPTH_CLEAR_EVENT) == (kind_of(ev) == DEPTH_CLEAR_EVENT && ev
            & LOCAL_EVENT != 0 && ev & SELL_EVENT != 0),
{
    assert({
        &&& flag_is(ev, LOCAL_TRADE_EVENT) == (ev & 0xff == 2 && ev & LOCAL_EVENT != 0)
        &&& flag_is(ev, LOCAL_DEPTH_CLEAR_EVENT) == (ev & 0xff == 3 && ev & LOCAL_EVENT != 0)
        &&& flag_is(ev, LOCAL_BID_DEPTH_EVENT) == (ev & 0xff == 1 && ev & LOCAL_EVENT != 0 && ev
            & BUY_EVENT != 0)
        &&& flag_is(ev, LOCAL_ASK_DEPTH_EVENT) == (ev & 0xff == 1 && ev & LOCAL_EVENT != 0 && ev
            & SELL_EVENT != 0)
        &&& flag_is(ev, LOCAL_BID_DEPTH_SNAPSHOT_EVENT) == (ev & 0xff == 4 && ev & LOCAL_EVENT != 0
            && ev & BUY_EVENT != 0)
        &&& flag_is(ev, LOCAL_ASK_DEPTH_SNAPSHOT_EVENT) == (ev & 0xff == 4 && ev & LOCAL_EVENT != 0
            && ev & SELL_EVENT != 0)
        &&& flag_is(ev, LOCAL_BID_DEPTH_CLEAR_EVENT) == (ev & 0xff == 3 && ev & LOCAL_EVENT != 0
            && ev & BUY_EVENT != 0)
        &&& flag_is(ev, LOCAL_ASK_DEPTH_CLEAR_EVENT) == (ev & 0xff == 3 && ev & LOCAL_EVENT != 0
            && ev & SELL_EVENT != 0)
    }) by (bit_vector);
}

/// What market data does to the book of the local side. A level of a side is set at the local time;
/// one of a snapshot also makes the book ready. A clear removes the range of its side to its price,
/// or both sides altogether where it names none. A trade, and what the local side does not see,
/// leaves the book.
pub proof fn local_books_follow_local_events(book: Book, event: Event)
    ensures
        ({
            let kind = kind_of(event.ev);
            let seen = event.ev & LOCAL_EVENT != 0;
            let after = book_after(book, event);
            &&& !seen || kind == TRADE_EVENT ==> after == book
            &&& seen && kind == DEPTH_EVENT && of_side(event.ev, Side::Buy) ==> after
                == book.bid_set(event.px, event.qty, event.local_ts)
            &&& seen && kind == DEPTH_EVENT && of_side(event.ev, Side::Sell) ==> after
                == book.ask_set(event.px, event.qty, event.local_ts)
            &&& seen && kind == DEPTH_SNAPSHOT_EVENT && of_side(event.ev, Side::Buy) ==> after == (
            Book { ready: true, ..book.bid_set(event.px, event.qty, event.local_ts) })
            &&& seen && kind == DEPTH_SNAPSHOT_EVENT && of_side(event.ev, Side::Sell) ==> after == (
            Book { ready: true, ..book.ask_set(event.px, event.qty, event.local_ts) })
            &&& seen && kind == DEPTH_CLEAR_EVENT && of_side(event.ev, Side::Buy) ==> after
                == book.cleared(Side::Buy, Some(event.px))
            &&& seen && kind == DEPTH_CLEAR_EVENT && of_side(event.ev, Side::Sell) ==> after
                == book.cleared(Side::Sell, Some(event.px))
            &&& seen && kind == DEPTH_CLEAR_EVENT && event.ev & BUY_EVENT == 0 && event.ev
                & SELL_EVENT == 0 ==> after.bids.len() == 0 && after.asks.len() == 0
                && after.best_bid is None && after.best_ask is None
            &&& is_trade(event) <==> seen && kind == TRADE_EVENT
        }),
{
    lemma_local_flags(event.ev);
}

/// The order of every update that is received is told once, as it stands after the update, and in the
/// order of the updates. Updates that are not due yet are not told.
pub proof fn received_updates_are_told_in_order<AT: AssetType, FM: FeeModel>(
    asset_type: AT,
    fee_model: FM,
    records: OrderRecords,
    updates: Seq<(UpdateModel, i64)>,
    timestamp: i64,
)
    requires
        updates.len() > 0,
    ensures
        ({
            let told = handled_orders(asset_type, fee_model, records, updates, timestamp);
            &&& updates[0].1 != timestamp ==> told.len() == 0
            &&& updates[0].1 == timestamp ==> match received(
                asset_type,
                fee_model,
                records,
                updates[0].0,
                timestamp,
            ) {
                Err(_) => told.len() == 0,
                Ok(after) => {
                    let rest = handled_orders(
                        asset_type,
                        fee_model,
                        after,
                        updates.skip(1),
                        timestamp,
                    );
                    match lookup(after.orders, updates[0].0.order_id as int) {
                        Some(order) => told.len() == 1 + rest.len() && told[0] == order
                            && told.skip(1) == rest,
                        None => told == rest,
                    }
                },
            }
        }),
{
    if updates[0].1 == timestamp {
        if let Ok(after) = received(asset_type, fee_model, records, updates[0].0, timestamp) {
            let told = handled_orders(asset_type, fee_model, records, updates, timestamp);
            let rest = handled_orders(asset_type, fee_model, after, updates.skip(1), timestamp);
            match lookup(after.orders, updates[0].0.order_id as int) {
                Some(order) => {
                    assert(told.skip(1) =~= rest);
                },
                None => {
                    assert(told =~= rest);
                },
            }
        }
    }
}

} // verus!
