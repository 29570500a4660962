//! The local model: what a strategy sees and asks for.
use std::collections::VecDeque;

use vstd::prelude::*;

use crate::assettype::AssetType;
use crate::decimal::Decimal;
use crate::depth::Book;
use crate::depth::L2MarketDepth;
use crate::depth::MarketDepth;
use crate::error::BacktestError;
use crate::lifecycle::NewOrder;
use crate::lifecycle::Order;
use crate::lifecycle::OrderFill;
use crate::lifecycle::OrderModel;
use crate::lifecycle::OrderRequest;
use crate::lifecycle::OrderStatus;
use crate::lifecycle::OrderUpdate;
use crate::lifecycle::RequestResult;
use crate::lifecycle::UpdateModel;
use crate::models::fee::FeeModel;
use crate::models::latency::LatencyModel;
use crate::models::queue::QueueModel;
use crate::order_bus::LocalToExch;
use crate::order_bus::OrderLink;
use crate::order_bus::is_due;
use crate::order_bus::nothing_overdue;
use crate::order_bus::requested;
use crate::processor::nopartialfillexchange::Ledger;
use crate::processor::nopartialfillexchange::acted;
use crate::processor::nopartialfillexchange::answer;
use crate::processor::price_match::price_match_valid;
use crate::processor::price_match::validate_price_match;
use crate::processor::venue::Venue;
use crate::sorted_map::Ranked;
use crate::sorted_map::SortedMap;
use crate::sorted_map::below;
use crate::sorted_map::holds;
use crate::sorted_map::inserted;
use crate::sorted_map::lemma_inserted;
use crate::sorted_map::lemma_lookup_entry;
use crate::sorted_map::lemma_removed;
use crate::sorted_map::lemma_viewed_below;
use crate::sorted_map::lemma_viewed_inserted;
use crate::sorted_map::lookup;
use crate::sorted_map::ordered;
use crate::sorted_map::removed;
use crate::sorted_map::viewed;
use crate::state::State;
use crate::state::all_filled_values;
use crate::types::Event;
use crate::types::LOCAL_ASK_DEPTH_CLEAR_EVENT;
use crate::types::LOCAL_ASK_DEPTH_EVENT;
use crate::types::LOCAL_ASK_DEPTH_SNAPSHOT_EVENT;
use crate::types::LOCAL_BID_DEPTH_CLEAR_EVENT;
use crate::types::LOCAL_BID_DEPTH_EVENT;
use crate::types::LOCAL_BID_DEPTH_SNAPSHOT_EVENT;
use crate::types::LOCAL_DEPTH_CLEAR_EVENT;
use crate::types::LOCAL_EVENT;
use crate::types::LOCAL_TRADE_EVENT;
use crate::types::OrdType;
use crate::types::OrderId;
use crate::types::PriceMatch;
use crate::types::Side;
use crate::types::StateValues;
use crate::types::TimeInForce;
use crate::types::flag_is;

verus! {

/// The requests of the local side and their way to the exchange.
#[verifier::ext_equal]
pub struct Requests<LM> {
    /// The requests that were not answered yet, by their orders.
    pub pending: Seq<(OrderId, OrderRequest)>,
    /// The number of the next request.
    pub next_request_id: u64,
    /// The latency model.
    pub latency: LM,
    /// The requests under way.
    pub to_exch: Seq<(OrderRequest, i64)>,
}

/// What sending a request leaves.
pub open spec fn asked<LM: LatencyModel<OrderRequest, OrderUpdate>>(
    requests: Requests<LM>,
    request: OrderRequest,
    timestamp: i64,
) -> Result<Requests<LM>, BacktestError> {
    if requests.next_request_id == u64::MAX {
        Err(BacktestError::Overflow)
    } else {
        match requested::<OrderRequest, OrderUpdate, LM>(
            requests.latency,
            requests.to_exch,
            request,
            timestamp,
        ) {
            Err(error) => Err(error),
            Ok((latency, to_exch)) => Ok(
                Requests {
                    pending: inserted(requests.pending, request.about(), request),
                    next_request_id: (requests.next_request_id + 1) as u64,
                    latency,
                    to_exch,
                },
            ),
        }
    }
}

/// Why an order may not be submitted, where it may not.
pub open spec fn submit_fault(
    orders: Seq<(OrderId, OrderModel)>,
    pending: Seq<(OrderId, OrderRequest)>,
    order: NewOrder,
) -> Option<BacktestError> {
    let id = order.order_id as int;
    if !price_match_valid(order.order_type, order.price_match) {
        Some(BacktestError::InvalidOrderRequest)
    } else if holds(orders, id) || holds(pending, id) {
        Some(BacktestError::OrderIdExist)
    } else {
        None
    }
}

/// Why an order may not be modified, where it may not.
pub open spec fn modify_fault(
    orders: Seq<(OrderId, OrderModel)>,
    pending: Seq<(OrderId, OrderRequest)>,
    order_id: OrderId,
    price_match: PriceMatch,
) -> Option<BacktestError> {
    match lookup(orders, order_id as int) {
        None => Some(BacktestError::OrderNotFound),
        Some(order) => if holds(pending, order_id as int) {
            Some(BacktestError::OrderRequestInProcess)
        } else if !price_match_valid(order.order_type, price_match) {
            Some(BacktestError::InvalidOrderRequest)
        } else if order.status != OrderStatus::Open {
            Some(BacktestError::InvalidOrderStatus)
        } else {
            None
        },
    }
}

/// Why an order may not be canceled, where it may not.
pub open spec fn cancel_fault(
    orders: Seq<(OrderId, OrderModel)>,
    pending: Seq<(OrderId, OrderRequest)>,
    order_id: OrderId,
) -> Option<BacktestError> {
    match lookup(orders, order_id as int) {
        None => Some(BacktestError::OrderNotFound),
        Some(order) => if holds(pending, order_id as int) {
            Some(BacktestError::OrderRequestInProcess)
        } else if order.status != OrderStatus::Open {
            Some(BacktestError::InvalidOrderStatus)
        } else {
            None
        },
    }
}

/// The orders that are active or wait for an answer.
pub open spec fn live_orders(
    orders: Seq<(OrderId, OrderModel)>,
    pending: Seq<(OrderId, OrderRequest)>,
) -> Seq<(OrderId, OrderModel)>
    decreases orders.len(),
{
    if orders.len() == 0 {
        Seq::empty()
    } else {
        let before = live_orders(orders.drop_last(), pending);
        let (id, order) = orders.last();
        if order.status == OrderStatus::Open || holds(pending, id as int) {
            before.push((id, order))
        } else {
            before
        }
    }
}

/// The trades that the local side remembers.
#[verifier::ext_equal]
pub struct TradeLog {
    /// The trades, the earliest first.
    pub trades: Seq<Event>,
    /// Since when every trade is remembered, once trades are recorded.
    pub since: Option<i64>,
    /// The latest time of the log.
    pub time: i64,
}

/// The time up to which trades are forgotten.
pub open spec fn trade_cutoff(timestamp: i64, horizon: u128) -> i64 {
    if timestamp - horizon < i64::MIN {
        i64::MIN
    } else {
        (timestamp - horizon) as i64
    }
}

/// The trades without those at the front that are not after a time.
pub open spec fn trades_after(trades: Seq<Event>, cutoff: i64) -> Seq<Event>
    decreases trades.len(),
{
    if trades.len() > 0 && trades[0].local_ts <= cutoff {
        trades_after(trades.skip(1), cutoff)
    } else {
        trades
    }
}

impl TradeLog {
    /// The log at a later time.
    pub open spec fn at(self, recording: bool, horizon: Option<u128>, timestamp: i64) -> TradeLog {
        let since = match self.since {
            Some(since) => since,
            None => timestamp,
        };
        if !recording {
            TradeLog { time: timestamp, ..self }
        } else {
            match horizon {
                None => TradeLog { since: Some(since), time: timestamp, ..self },
                Some(horizon) => {
                    let cutoff = trade_cutoff(timestamp, horizon);
                    TradeLog {
                        trades: trades_after(self.trades, cutoff),
                        since: Some(
                            if since < cutoff {
                                cutoff
                            } else {
                                since
                            },
                        ),
                        time: timestamp,
                    }
                },
            }
        }
    }

    /// The log after an event was seen.
    pub open spec fn seen(self, recording: bool, horizon: Option<u128>, event: Event) -> TradeLog {
        let now = self.at(recording, horizon, event.local_ts);
        if recording && is_trade(event) {
            TradeLog { trades: now.trades.push(event), ..now }.at(
                recording,
                horizon,
                event.local_ts,
            )
        } else {
            now
        }
    }
}

/// Whether an event is about the depth that the local side sees.
pub open spec fn is_depth(event: Event) -> bool {
    ||| flag_is(event.ev, LOCAL_BID_DEPTH_CLEAR_EVENT)
    ||| flag_is(event.ev, LOCAL_ASK_DEPTH_CLEAR_EVENT)
    ||| flag_is(event.ev, LOCAL_DEPTH_CLEAR_EVENT)
    ||| flag_is(event.ev, LOCAL_BID_DEPTH_EVENT)
    ||| flag_is(event.ev, LOCAL_BID_DEPTH_SNAPSHOT_EVENT)
    ||| flag_is(event.ev, LOCAL_ASK_DEPTH_EVENT)
    ||| flag_is(event.ev, LOCAL_ASK_DEPTH_SNAPSHOT_EVENT)
}

/// Whether an event is a trade that the local side sees.
pub open spec fn is_trade(event: Event) -> bool {
    !is_depth(event) && flag_is(event.ev, LOCAL_TRADE_EVENT)
}

/// What an event does to the book of the local side.
pub open spec fn book_after(book: Book, event: Event) -> Book {
    if flag_is(event.ev, LOCAL_BID_DEPTH_CLEAR_EVENT) {
        book.cleared(Side::Buy, Some(event.px))
    } else if flag_is(event.ev, LOCAL_ASK_DEPTH_CLEAR_EVENT) {
        book.cleared(Side::Sell, Some(event.px))
    } else if flag_is(event.ev, LOCAL_DEPTH_CLEAR_EVENT) {
        book.cleared(Side::Buy, None).cleared(Side::Sell, None)
    } else if flag_is(event.ev, LOCAL_BID_DEPTH_EVENT) || flag_is(
        event.ev,
        LOCAL_BID_DEPTH_SNAPSHOT_EVENT,
    ) {
        let after = book.bid_set(event.px, event.qty, event.local_ts);
        if flag_is(event.ev, LOCAL_BID_DEPTH_SNAPSHOT_EVENT) {
            after.marked_ready()
        } else {
            after
        }
    } else if flag_is(event.ev, LOCAL_ASK_DEPTH_EVENT) || flag_is(
        event.ev,
        LOCAL_ASK_DEPTH_SNAPSHOT_EVENT,
    ) {
        let after = book.ask_set(event.px, event.qty, event.local_ts);
        if flag_is(event.ev, LOCAL_ASK_DEPTH_SNAPSHOT_EVENT) {
            after.marked_ready()
        } else {
            after
        }
    } else {
        book
    }
}

/// What the local side knows of its orders.
#[verifier::ext_equal]
pub struct OrderRecords {
    /// The orders, by their identifiers.
    pub orders: Seq<(OrderId, OrderModel)>,
    /// The requests that were not answered yet, by their orders.
    pub pending: Seq<(OrderId, OrderRequest)>,
    /// The latest answers, by their orders.
    pub results: Seq<(OrderId, RequestResult)>,
    /// What was traded.
    pub values: StateValues,
    /// When the latest request was made, handled and answered.
    pub last_order_latency: Option<(i64, i64, i64)>,
}

/// The request that an update answers, where it is still waited for.
pub open spec fn answered_request(
    pending: Seq<(OrderId, OrderRequest)>,
    update: UpdateModel,
) -> Option<OrderRequest> {
    match (update.request_result, lookup(pending, update.order_id as int)) {
        (Some(result), Some(request)) => if request.id() == result.request_id {
            Some(request)
        } else {
            None
        },
        _ => None,
    }
}

/// The orders with that of an update, which is created where the update answers its submission.
pub open spec fn known_orders(records: OrderRecords, update: UpdateModel) -> Result<
    Seq<(OrderId, OrderModel)>,
    BacktestError,
> {
    if update.state is Some && !holds(records.orders, update.order_id as int) {
        match answered_request(records.pending, update) {
            Some(OrderRequest::New { order, .. }) => Ok(
                inserted(records.orders, update.order_id, OrderModel::placed(order)),
            ),
            _ => Err(BacktestError::InvalidOrderRequest),
        }
    } else {
        Ok(records.orders)
    }
}

/// What an update does to an order and to what was traded.
pub open spec fn order_updated<AT: AssetType, FM: FeeModel>(
    asset_type: AT,
    fee_model: FM,
    values: StateValues,
    order: OrderModel,
    update: UpdateModel,
) -> Option<(OrderModel, StateValues)> {
    match (
        order.with_fills(update.fills),
        all_filled_values(values, asset_type, fee_model, order.side, update.fills),
    ) {
        (Some(after), Some(values)) => Some(
            (
                match update.state {
                    Some(state) => after.with_state(state, update.exch_timestamp),
                    None => after,
                },
                values,
            ),
        ),
        _ => None,
    }
}

/// When the latest request was made, handled and answered, once an update is received.
pub open spec fn latency_seen(
    records: OrderRecords,
    update: UpdateModel,
    timestamp: i64,
) -> Option<(i64, i64, i64)> {
    match answered_request(records.pending, update) {
        Some(request) => Some((request.made_at(), update.exch_timestamp, timestamp)),
        None => records.last_order_latency,
    }
}

/// What an update that is received at a time does to the records.
pub open spec fn received<AT: AssetType, FM: FeeModel>(
    asset_type: AT,
    fee_model: FM,
    records: OrderRecords,
    update: UpdateModel,
    timestamp: i64,
) -> Result<OrderRecords, BacktestError> {
    let id = update.order_id as int;
    let last_order_latency = latency_seen(records, update, timestamp);
    let (pending, results) = match update.request_result {
        Some(result) => (
            removed(records.pending, id),
            inserted(records.results, update.order_id, result),
        ),
        None => (records.pending, records.results),
    };
    match known_orders(records, update) {
        Err(error) => Err(error),
        Ok(orders) => match lookup(orders, id) {
            None => Ok(OrderRecords { orders, pending, results, last_order_latency, ..records }),
            Some(order) => match order_updated(
                asset_type,
                fee_model,
                records.values,
                order,
                update,
            ) {
                None => Err(BacktestError::Overflow),
                Some((after, values)) => Ok(
                    OrderRecords {
                        orders: inserted(orders, update.order_id, after),
                        pending,
                        results,
                        values,
                        last_order_latency,
                    },
                ),
            },
        },
    }
}

/// Whether an update answers a request about an order.
pub open spec fn is_answer(update: UpdateModel, order_id: Option<OrderId>) -> bool {
    order_id == Some(update.order_id) && update.request_result is Some
}

/// What the updates that are received at a time leave: the records, the updates that are still under
/// way, and whether the answer that is waited for was among them.
pub open spec fn all_received<AT: AssetType, FM: FeeModel>(
    asset_type: AT,
    fee_model: FM,
    records: OrderRecords,
    updates: Seq<(UpdateModel, i64)>,
    timestamp: i64,
    order_id: Option<OrderId>,
    answered: bool,
) -> Result<(OrderRecords, Seq<(UpdateModel, i64)>, bool), BacktestError>
    decreases updates.len(),
{
    if updates.len() > 0 && is_due(updates, timestamp) {
        match received(asset_type, fee_model, records, updates[0].0, timestamp) {
            Err(error) => Err(error),
            Ok(after) => all_received(
                asset_type,
                fee_model,
                after,
                updates.skip(1),
                timestamp,
                order_id,
                answered || is_answer(updates[0].0, order_id),
            ),
        }
    } else {
        Ok((records, updates, answered))
    }
}

/// What is left when the updates that are received at a time end with one that cannot be taken into
/// account: what the updates in front of it leave, with the times of the request that it answers,
/// and the updates behind it.
pub open spec fn at_refusal<AT: AssetType, FM: FeeModel>(
    asset_type: AT,
    fee_model: FM,
    records: OrderRecords,
    updates: Seq<(UpdateModel, i64)>,
    timestamp: i64,
) -> (OrderRecords, Seq<(UpdateModel, i64)>)
    decreases updates.len(),
{
    if updates.len() > 0 && is_due(updates, timestamp) {
        match received(asset_type, fee_model, records, updates[0].0, timestamp) {
            Err(_) => (
                OrderRecords {
                    last_order_latency: latency_seen(records, updates[0].0, timestamp),
                    ..records
                },
                updates.skip(1),
            ),
            Ok(after) => at_refusal(asset_type, fee_model, after, updates.skip(1), timestamp),
        }
    } else {
        (records, updates)
    }
}

/// The orders as they are after each of the updates that are received at a time.
pub open spec fn handled_orders<AT: AssetType, FM: FeeModel>(
    asset_type: AT,
    fee_model: FM,
    records: OrderRecords,
    updates: Seq<(UpdateModel, i64)>,
    timestamp: i64,
) -> Seq<OrderModel>
    decreases updates.len(),
{
    if updates.len() > 0 && is_due(updates, timestamp) {
        match received(asset_type, fee_model, records, updates[0].0, timestamp) {
            Err(_) => Seq::empty(),
            Ok(after) => handled_order(after, updates[0].0) + handled_orders(
                asset_type,
                fee_model,
                after,
                updates.skip(1),
                timestamp,
            ),
        }
    } else {
        Seq::empty()
    }
}

/// The order of an update that was received.
pub open spec fn handled_order(records: OrderRecords, update: UpdateModel) -> Seq<OrderModel> {
    match lookup(records.orders, update.order_id as int) {
        Some(order) => seq![order],
        None => Seq::empty(),
    }
}

/// What orders stand for.
pub open spec fn order_models(orders: Seq<Order>) -> Seq<OrderModel> {
    orders.map_values(|order: Order| order@)
}

/// The local model.
#[derive(Debug)]
pub struct Local<AT, LM, MD, FM> {
    /// The orders.
    pub orders: SortedMap<OrderId, Order>,
    /// The requests that were not answered yet.
    pub pending_requests: SortedMap<OrderId, OrderRequest>,
    /// The latest answers.
    pub last_request_results: SortedMap<OrderId, RequestResult>,
    /// The number of the next request.
    pub next_request_id: u64,
    /// The way to the exchange.
    pub order_l2e: LocalToExch<LM>,
    /// The book.
    pub depth: MD,
    /// What was traded.
    pub state: State<AT, FM>,
    /// The trades.
    pub trades: VecDeque<Event>,
    /// Whether trades are recorded.
    pub record_trades: bool,
    /// How long trades are remembered, in nanoseconds. Without it they are remembered until they are
    /// cleared.
    pub trade_horizon: Option<u128>,
    /// The latest time of the log.
    pub trade_time: i64,
    /// Since when every trade is remembered.
    pub trades_since: Option<i64>,
    /// When the latest event happened, and when it was seen.
    pub last_feed_latency: Option<(i64, i64)>,
    /// When the latest request was made, handled and answered.
    pub last_order_latency: Option<(i64, i64, i64)>,
    /// Whether snapshots may be taken.
    pub snapshot_enabled: bool,
}

impl<
    AT: AssetType,
    LM: LatencyModel<OrderRequest, OrderUpdate>,
    MD: MarketDepth,
    FM: FeeModel,
> Local<AT, LM, MD, FM> {
    /// The requests and their way to the exchange.
    pub open spec fn requests(&self, link: &OrderLink<OrderRequest, OrderUpdate>) -> Requests<LM> {
        Requests {
            pending: self.pending_requests@,
            next_request_id: self.next_request_id,
            latency: self.order_l2e.order_latency,
            to_exch: link.to_exch@,
        }
    }

    /// What is known of the orders.
    pub open spec fn records(&self) -> OrderRecords {
        OrderRecords {
            orders: viewed(self.orders@),
            pending: self.pending_requests@,
            results: self.last_request_results@,
            values: self.state.state_values,
            last_order_latency: self.last_order_latency,
        }
    }

    /// The trades that are remembered.
    pub open spec fn log(&self) -> TradeLog {
        TradeLog { trades: self.trades@, since: self.trades_since, time: self.trade_time }
    }

    /// Whether the maps and the book are in order, and every request is one that was made.
    pub open spec fn wf(&self) -> bool {
        &&& self.orders.wf()
        &&& self.pending_requests.wf()
        &&& self.last_request_results.wf()
        &&& self.depth.wf()
        &&& pending_ok(self.pending_requests@, self.next_request_id)
    }

    /// Whether the models, and what market data is about, are the same.
    pub open spec fn same_feed(&self, before: &Self) -> bool {
        &&& self.depth == before.depth
        &&& self.state.asset_type == before.state.asset_type
        &&& self.state.fee_model == before.state.fee_model
        &&& self.log() == before.log()
        &&& self.record_trades == before.record_trades
        &&& self.trade_horizon == before.trade_horizon
        &&& self.last_feed_latency == before.last_feed_latency
        &&& self.snapshot_enabled == before.snapshot_enabled
    }

    /// Whether what is known of the orders and the way to the exchange is the same.
    pub open spec fn same_orders(&self, before: &Self) -> bool {
        &&& self.records() == before.records()
        &&& self.next_request_id == before.next_request_id
        &&& self.order_l2e == before.order_l2e
        &&& self.state == before.state
        &&& self.snapshot_enabled == before.snapshot_enabled
    }

    /// Constructs an instance of `Local`. Trades are recorded where room for some is asked for.
    pub fn new(
        depth: MD,
        state: State<AT, FM>,
        last_trades_cap: usize,
        order_l2e: LocalToExch<LM>,
    ) -> (r: Self)
        requires
            depth.wf(),
        ensures
            r.wf(),
            r.orders@.len() == 0,
            r.pending_requests@.len() == 0,
            r.last_request_results@.len() == 0,
            r.next_request_id == 0,
            r.order_l2e == order_l2e,
            r.depth == depth,
            r.state == state,
            r.log() == (TradeLog { trades: Seq::empty(), since: None, time: 0 }),
            r.record_trades == (last_trades_cap > 0),
            r.trade_horizon is None,
            r.last_feed_latency is None,
            r.last_order_latency is None,
            !r.snapshot_enabled,
    {
        Local {
            orders: SortedMap::new(),
            pending_requests: SortedMap::new(),
            last_request_results: SortedMap::new(),
            next_request_id: 0,
            order_l2e,
            depth,
            state,
            trades: VecDeque::new(),
            record_trades: last_trades_cap > 0,
            trade_horizon: None,
            trade_time: 0,
            trades_since: None,
            last_feed_latency: None,
            last_order_latency: None,
            snapshot_enabled: false,
        }
    }

    /// Says whether trades are recorded, and how many nanoseconds they are remembered.
    pub fn configure_trades(self, enabled: bool, horizon: Option<u128>) -> (r: Self)
        ensures
            r == (Local { record_trades: enabled, trade_horizon: horizon, ..self }),
    {
        let mut local: Self = self;
        local.record_trades = enabled;
        local.trade_horizon = horizon;
        local
    }

    /// Sends a request with the next number, and waits for its answer from then on.
    fn ask(
        &mut self,
        link: &mut OrderLink<OrderRequest, OrderUpdate>,
        request: OrderRequest,
        timestamp: i64,
    ) -> (r: Result<(), BacktestError>)
        requires
            old(self).wf(),
            old(link).wf(),
            request.id() == old(self).next_request_id,
        ensures
            final(self).wf(),
            final(link).wf(),
            final(link).to_local@ == old(link).to_local@,
            final(self).same_feed(old(self)),
            final(self).records() == (OrderRecords {
                pending: final(self).pending_requests@,
                ..old(self).records()
            }),
            match asked(old(self).requests(old(link)), request, timestamp) {
                Ok(after) => r is Ok && final(self).requests(final(link)) == after,
                Err(error) => r == Err::<(), BacktestError>(error)
                    && final(self).pending_requests@ == old(self).pending_requests@
                    && final(link).to_exch@ == old(link).to_exch@,
            },
    {
        let next: u64 = match self.next_request_id.checked_add(1) {
            Some(next) => next,
            None => {
                return Err(BacktestError::Overflow);
            },
        };
        match self.order_l2e.request(link, request, timestamp) {
            Ok(()) => {},
            Err(error) => {
                return Err(error);
            },
        }
        proof {
            lemma_pending_asked(self.pending_requests@, self.next_request_id, request);
        }
        self.next_request_id = next;
        self.pending_requests.insert(request.order_id(), request);
        Ok(())
    }

    /// Submits a new order.
    ///
    /// * `order_id` - The unique order ID; there should not be any existing order with the same ID
    ///   on both local and exchange sides.
    pub fn submit_order(
        &mut self,
        link: &mut OrderLink<OrderRequest, OrderUpdate>,
        order_id: OrderId,
        side: Side,
        price: Decimal,
        price_match: PriceMatch,
        qty: Decimal,
        order_type: OrdType,
        time_in_force: TimeInForce,
        current_timestamp: i64,
    ) -> (r: Result<(), BacktestError>)
        requires
            old(self).wf(),
            old(link).wf(),
        ensures
            final(self).wf(),
            final(link).wf(),
            final(link).to_local@ == old(link).to_local@,
            final(self).same_feed(old(self)),
            final(self).records() == (OrderRecords {
                pending: final(self).pending_requests@,
                ..old(self).records()
            }),
            ({
                let order = NewOrder {
                    order_id,
                    price,
                    price_match,
                    qty,
                    side,
                    time_in_force,
                    order_type,
                };
                match submit_fault(
                    old(self).records().orders,
                    old(self).pending_requests@,
                    order,
                ) {
                    Some(error) => r == Err::<(), BacktestError>(error) && final(self).requests(
                        final(link),
                    ) == old(self).requests(old(link)),
                    None => match asked(
                        old(self).requests(old(link)),
                        OrderRequest::New {
                            request_id: old(self).next_request_id,
                            local_timestamp: current_timestamp,
                            order,
                        },
                        current_timestamp,
                    ) {
                        Ok(after) => r is Ok && final(self).requests(final(link)) == after,
                        Err(error) => r == Err::<(), BacktestError>(error)
                            && final(self).pending_requests@ == old(self).pending_requests@
                            && final(link).to_exch@ == old(link).to_exch@,
                    },
                }
            }),
    {
        proof {
            lemma_viewed_below(self.orders@, order_id as int);
        }
        match validate_price_match(order_type, price_match) {
            Ok(()) => {},
            Err(error) => {
                return Err(error);
            },
        }
        if self.orders.contains(&order_id) || self.pending_requests.contains(&order_id) {
            return Err(BacktestError::OrderIdExist);
        }
        let request: OrderRequest = OrderRequest::New {
            request_id: self.next_request_id,
            local_timestamp: current_timestamp,
            order: NewOrder {
                order_id,
                price,
                price_match,
                qty,
                side,
                time_in_force,
                order_type,
            },
        };
        self.ask(link, request, current_timestamp)
    }

    /// Modifies an open order. `qty` is the new total quantity, including what was executed.
    pub fn modify(
        &mut self,
        link: &mut OrderLink<OrderRequest, OrderUpdate>,
        order_id: OrderId,
        price: Decimal,
        price_match: PriceMatch,
        qty: Decimal,
        current_timestamp: i64,
    ) -> (r: Result<(), BacktestError>)
        requires
            old(self).wf(),
            old(link).wf(),
        ensures
            final(self).wf(),
            final(link).wf(),
            final(link).to_local@ == old(link).to_local@,
            final(self).same_feed(old(self)),
            final(self).records() == (OrderRecords {
                pending: final(self).pending_requests@,
                ..old(self).records()
            }),
            match modify_fault(
                old(self).records().orders,
                old(self).pending_requests@,
                order_id,
                price_match,
            ) {
                Some(error) => r == Err::<(), BacktestError>(error) && final(self).requests(
                    final(link),
                ) == old(self).requests(old(link)),
                None => match asked(
                    old(self).requests(old(link)),
                    OrderRequest::Modify {
                        request_id: old(self).next_request_id,
                        local_timestamp: current_timestamp,
                        order_id,
                        price,
                        price_match,
                        qty,
                    },
                    current_timestamp,
                ) {
                    Ok(after) => r is Ok && final(self).requests(final(link)) == after,
                    Err(error) => r == Err::<(), BacktestError>(error)
                        && final(self).pending_requests@ == old(self).pending_requests@
                        && final(link).to_exch@ == old(link).to_exch@,
                },
            },
    {
        proof {
            lemma_viewed_below(self.orders@, order_id as int);
        }
        let order: &Order = match self.orders.get(&order_id) {
            Some(order) => order,
            None => {
                return Err(BacktestError::OrderNotFound);
            },
        };
        if self.pending_requests.contains(&order_id) {
            return Err(BacktestError::OrderRequestInProcess);
        }
        match validate_price_match(order.order_type, price_match) {
            Ok(()) => {},
            Err(error) => {
                return Err(error);
            },
        }
        if !order.active() {
            return Err(BacktestError::InvalidOrderStatus);
        }
        let request: OrderRequest = OrderRequest::Modify {
            request_id: self.next_request_id,
            local_timestamp: current_timestamp,
            order_id,
            price,
            price_match,
            qty,
        };
        self.ask(link, request, current_timestamp)
    }

    /// Cancels an open order.
    pub fn cancel(
        &mut self,
        link: &mut OrderLink<OrderRequest, OrderUpdate>,
        order_id: OrderId,
        current_timestamp: i64,
    ) -> (r: Result<(), BacktestError>)
        requires
            old(self).wf(),
            old(link).wf(),
        ensures
            final(self).wf(),
            final(link).wf(),
            final(link).to_local@ == old(link).to_local@,
            final(self).same_feed(old(self)),
            final(self).records() == (OrderRecords {
                pending: final(self).pending_requests@,
                ..old(self).records()
            }),
            match cancel_fault(
                old(self).records().orders,
                old(self).pending_requests@,
                order_id,
            ) {
                Some(error) => r == Err::<(), BacktestError>(error) && final(self).requests(
                    final(link),
                ) == old(self).requests(old(link)),
                None => match asked(
                    old(self).requests(old(link)),
                    OrderRequest::Cancel {
                        request_id: old(self).next_request_id,
                        local_timestamp: current_timestamp,
                        order_id,
                    },
                    current_timestamp,
                ) {
                    Ok(after) => r is Ok && final(self).requests(final(link)) == after,
                    Err(error) => r == Err::<(), BacktestError>(error)
                        && final(self).pending_requests@ == old(self).pending_requests@
                        && final(link).to_exch@ == old(link).to_exch@,
                },
            },
    {
        proof {
            lemma_viewed_below(self.orders@, order_id as int);
        }
        let order: &Order = match self.orders.get(&order_id) {
            Some(order) => order,
            None => {
                return Err(BacktestError::OrderNotFound);
            },
        };
        if self.pending_requests.contains(&order_id) {
            return Err(BacktestError::OrderRequestInProcess);
        }
        if !order.active() {
            return Err(BacktestError::InvalidOrderStatus);
        }
        let request: OrderRequest = OrderRequest::Cancel {
            request_id: self.next_request_id,
            local_timestamp: current_timestamp,
            order_id,
        };
        self.ask(link, request, current_timestamp)
    }
}

/// Whether requests are in order: each under its own order, with a number that was given out.
pub open spec fn pending_ok(pending: Seq<(OrderId, OrderRequest)>, next_request_id: u64) -> bool {
    forall|i: int|
        0 <= i < pending.len() ==> (#[trigger] pending[i]).1.about() == pending[i].0
            && pending[i].1.id() < next_request_id
}

/// A request with the next number keeps the requests in order.
proof fn lemma_pending_asked(
    pending: Seq<(OrderId, OrderRequest)>,
    next_request_id: u64,
    request: OrderRequest,
)
    requires
        ordered(pending),
        pending_ok(pending, next_request_id),
        request.id() == next_request_id,
        next_request_id < u64::MAX,
    ensures
        pending_ok(
            inserted(pending, request.about(), request),
            (next_request_id + 1) as u64,
        ),
{
    let id = request.about() as int;
    let t = inserted(pending, request.about(), request);
    let n = below(pending, id);
    crate::sorted_map::lemma_below_splits(pending, id);
    assert forall|i: int| 0 <= i < t.len() implies (#[trigger] t[i]).1.about() == t[i].0
        && t[i].1.id() < next_request_id + 1 by {
        if holds(pending, id) {
            if i != n {
                assert(t[i] == pending[i]);
            } else {
                assert(pending[n].0.rank() == id);
            }
        } else if i < n {
            assert(t[i] == pending[i]);
        } else if i > n {
            assert(t[i] == pending[i - 1]);
        }
    }
}

/// Applies fills to an order and to what was traded.
fn apply_fills<AT: AssetType, FM: FeeModel>(
    state: &mut State<AT, FM>,
    order: &mut Order,
    fills: &Vec<OrderFill>,
) -> (r: Result<(), BacktestError>)
    ensures
        final(state).asset_type == old(state).asset_type,
        final(state).fee_model == old(state).fee_model,
        ({
            let after = old(order)@.with_fills(fills@);
            let values = all_filled_values(
                old(state).state_values,
                old(state).asset_type,
                old(state).fee_model,
                old(order)@.side,
                fills@,
            );
            if after is Some && values is Some {
                r is Ok && final(order)@ == after->0 && final(state).state_values == values->0
            } else {
                r == Err::<(), BacktestError>(BacktestError::Overflow)
            }
        }),
{
    let mut i: usize = 0;
    let ghost side = order.side;
    assert(fills@.take(0) =~= Seq::empty());
    while i < fills.len()
        invariant
            i <= fills@.len(),
            side == old(order)@.side,
            order.side == side,
            state.asset_type == old(state).asset_type,
            state.fee_model == old(state).fee_model,
            old(order)@.with_fills(fills@.take(i as int)) == Some(order@),
            all_filled_values(
                old(state).state_values,
                old(state).asset_type,
                old(state).fee_model,
                side,
                fills@.take(i as int),
            ) == Some(state.state_values),
        decreases fills@.len() - i,
    {
        let fill: OrderFill = fills[i];
        proof {
            assert(fills@.take(i + 1).drop_last() =~= fills@.take(i as int));
            assert(fills@.take(i + 1).last() == fill);
            lemma_fills_fault(old(order)@, fills@, i + 1);
            lemma_values_fault(
                old(state).state_values,
                old(state).asset_type,
                old(state).fee_model,
                side,
                fills@,
                i + 1,
            );
        }
        match state.apply_fill(order.side, &fill) {
            Ok(()) => {},
            Err(error) => {
                return Err(error);
            },
        }
        match order.apply_fill(fill) {
            Ok(()) => {},
            Err(error) => {
                return Err(error);
            },
        }
        i = i + 1;
    }
    assert(fills@.take(i as int) =~= fills@);
    Ok(())
}

/// Where the first fills cannot be applied to an order, all of them cannot.
proof fn lemma_fills_fault(order: OrderModel, fills: Seq<OrderFill>, k: int)
    requires
        0 <= k <= fills.len(),
    ensures
        order.with_fills(fills.take(k)) is None ==> order.with_fills(fills) is None,
    decreases fills.len(),
{
    if k == fills.len() {
        assert(fills.take(k) =~= fills);
    } else {
        assert(fills.drop_last().take(k) =~= fills.take(k));
        lemma_fills_fault(order, fills.drop_last(), k);
    }
}

/// Where the first fills cannot be added to what was traded, all of them cannot.
proof fn lemma_values_fault<AT: AssetType, FM: FeeModel>(
    values: StateValues,
    asset_type: AT,
    fee_model: FM,
    side: Side,
    fills: Seq<OrderFill>,
    k: int,
)
    requires
        0 <= k <= fills.len(),
    ensures
        all_filled_values(values, asset_type, fee_model, side, fills.take(k)) is None
            ==> all_filled_values(values, asset_type, fee_model, side, fills) is None,
    decreases fills.len(),
{
    if k == fills.len() {
        assert(fills.take(k) =~= fills);
    } else {
        assert(fills.drop_last().take(k) =~= fills.take(k));
        lemma_values_fault(values, asset_type, fee_model, side, fills.drop_last(), k);
    }
}

impl<
    AT: AssetType,
    LM: LatencyModel<OrderRequest, OrderUpdate>,
    MD: L2MarketDepth,
    FM: FeeModel,
> Local<AT, LM, MD, FM> {
    /// Forgets the orders that are neither active nor wait for an answer.
    pub fn clear_inactive_orders(&mut self)
        requires
            old(self).wf(),
        ensures
            final(self).wf(),
            final(self).same_feed(old(self)),
            final(self).next_request_id == old(self).next_request_id,
            final(self).order_l2e == old(self).order_l2e,
            final(self).state == old(self).state,
            final(self).records() == (OrderRecords {
                orders: live_orders(old(self).records().orders, old(self).pending_requests@),
                ..old(self).records()
            }),
    {
        let ghost all = viewed(self.orders@);
        let ghost pending = self.pending_requests@;
        let ghost mut k: int = 0;
        let mut i: usize = 0;
        assert(all.take(0) =~= Seq::empty());
        assert(all.skip(0) =~= all);
        while i < self.orders.entries.len()
            invariant
                self.wf(),
                self.same_feed(old(self)),
                self.next_request_id == old(self).next_request_id,
                self.order_l2e == old(self).order_l2e,
                self.state == old(self).state,
                self.records() == (OrderRecords {
                    orders: viewed(self.orders@),
                    ..old(self).records()
                }),
                all == old(self).records().orders,
                pending == old(self).pending_requests@,
                0 <= k <= all.len(),
                viewed(self.orders@) =~= live_orders(all.take(k), pending) + all.skip(k),
                i == live_orders(all.take(k), pending).len(),
            decreases all.len() - k,
        {
            let order_id: OrderId = self.orders.entries[i].0;
            let keep: bool = self.orders.entries[i].1.active() || self.pending_requests.contains(
                &order_id,
            );
            proof {
                assert(viewed(self.orders@)[i as int] == all[k]);
                assert(all.take(k + 1).drop_last() =~= all.take(k));
                assert(all.take(k + 1).last() == all[k]);
            }
            if keep {
                proof {
                    k = k + 1;
                }
                i = i + 1;
            } else {
                let ghost before = self.orders@;
                proof {
                    lemma_lookup_entry(before, i as int);
                    lemma_removed(before, order_id as int);
                }
                let _ = self.orders.entries.remove(i);
                proof {
                    assert(self.orders@ =~= removed(before, order_id as int));
                    assert(viewed(self.orders@) =~= viewed(before).remove(i as int));
                    k = k + 1;
                }
            }
        }
        proof {
            assert(all.skip(k).len() == 0);
            assert(all.take(k) =~= all);
        }
    }

    /// Returns the position.
    pub fn position(&self) -> (r: Decimal)
        ensures
            r == self.state.state_values.position,
    {
        self.state.values().position
    }

    /// Returns what was traded.
    pub fn state_values(&self) -> (r: &StateValues)
        ensures
            *r == self.state.state_values,
    {
        self.state.values()
    }

    /// Returns the book.
    pub fn depth(&self) -> (r: &MD)
        ensures
            *r == self.depth,
    {
        &self.depth
    }

    /// Returns the orders.
    pub fn orders(&self) -> (r: &SortedMap<OrderId, Order>)
        ensures
            *r == self.orders,
    {
        &self.orders
    }

    /// Returns the request about an order that was not answered yet.
    pub fn pending_order_request(&self, order_id: OrderId) -> (r: Option<OrderRequest>)
        requires
            self.wf(),
        ensures
            r == lookup(self.pending_requests@, order_id as int),
    {
        match self.pending_requests.get(&order_id) {
            Some(request) => Some(*request),
            None => None,
        }
    }

    /// Returns the latest answer to a request about an order.
    pub fn last_order_request_result(&self, order_id: OrderId) -> (r: Option<RequestResult>)
        requires
            self.wf(),
        ensures
            r == lookup(self.last_request_results@, order_id as int),
    {
        match self.last_request_results.get(&order_id) {
            Some(result) => Some(*result),
            None => None,
        }
    }

    /// Returns the trades that are remembered, the earliest first.
    pub fn last_trades(&self) -> (r: &VecDeque<Event>)
        ensures
            r@ == self.log().trades,
    {
        &self.trades
    }

    /// Forgets the trades. From now on every trade is remembered.
    pub fn clear_last_trades(&mut self)
        requires
            old(self).wf(),
        ensures
            final(self).wf(),
            final(self).same_orders(old(self)),
            final(self).depth == old(self).depth,
            final(self).record_trades == old(self).record_trades,
            final(self).trade_horizon == old(self).trade_horizon,
            final(self).last_feed_latency == old(self).last_feed_latency,
            final(self).log() == old(self).log().cleared(),
    {
        self.trades.clear();
        self.trades_since = match self.trades_since {
            Some(_) => Some(self.trade_time),
            None => None,
        };
        assert(self.trades@ =~= Seq::empty());
    }

    /// Returns since when every trade is remembered, once trades are recorded.
    pub fn last_trades_since(&self) -> (r: Option<i64>)
        ensures
            r == self.log().since,
    {
        self.trades_since
    }

    /// Moves the log to a later time: trades that are older than they are remembered are forgotten.
    pub fn advance_trade_time(&mut self, timestamp: i64)
        requires
            old(self).wf(),
        ensures
            final(self).wf(),
            final(self).same_orders(old(self)),
            final(self).depth == old(self).depth,
            final(self).record_trades == old(self).record_trades,
            final(self).trade_horizon == old(self).trade_horizon,
            final(self).last_feed_latency == old(self).last_feed_latency,
            final(self).log() == old(self).log().at(
                old(self).record_trades,
                old(self).trade_horizon,
                timestamp,
            ),
    {
        self.trade_time = timestamp;
        if !self.record_trades {
            return;
        }
        let since: i64 = match self.trades_since {
            Some(since) => since,
            None => timestamp,
        };
        self.trades_since = Some(since);
        if let Some(horizon) = self.trade_horizon {
            let cutoff: i64 = cutoff_of(timestamp, horizon);
            self.trades_since = Some(
                if since < cutoff {
                    cutoff
                } else {
                    since
                },
            );
            let ghost expected = trades_after(self.trades@, cutoff);
            let ghost before = *self;
            while self.trades.len() > 0 && self.trades[0].local_ts <= cutoff
                invariant
                    trades_after(self.trades@, cutoff) == expected,
                    *self == (Local { trades: self.trades, ..before }),
                decreases self.trades@.len(),
            {
                let ghost trades = self.trades@;
                let _ = self.trades.pop_front();
                assert(self.trades@ =~= trades.skip(1));
            }
        }
    }

    /// Returns when the latest event happened, and when it was seen.
    pub fn feed_latency(&self) -> (r: Option<(i64, i64)>)
        ensures
            r == self.last_feed_latency,
    {
        self.last_feed_latency
    }

    /// Returns when the latest request was made, handled and answered.
    pub fn order_latency(&self) -> (r: Option<(i64, i64, i64)>)
        ensures
            r == self.last_order_latency,
    {
        self.last_order_latency
    }

    /// When the local side sees an event, where it sees it.
    pub fn event_seen_timestamp(&self, event: &Event) -> (r: Option<i64>)
        ensures
            r == (if flag_is(event.ev, LOCAL_EVENT) {
                Some(event.local_ts)
            } else {
                None
            }),
    {
        if event.is(LOCAL_EVENT) {
            Some(event.local_ts)
        } else {
            None
        }
    }

    /// Processes an event that the local side sees.
    pub fn process(&mut self, ev: &Event)
        requires
            old(self).wf(),
        ensures
            final(self).wf(),
            final(self).same_orders(old(self)),
            final(self).record_trades == old(self).record_trades,
            final(self).trade_horizon == old(self).trade_horizon,
            final(self).depth.book() == book_after(old(self).depth.book(), *ev),
            final(self).log() == old(self).log().seen(
                old(self).record_trades,
                old(self).trade_horizon,
                *ev,
            ),
            final(self).last_feed_latency == Some((ev.exch_ts, ev.local_ts)),
    {
        self.advance_trade_time(ev.local_ts);
        // Processes a depth event
        if ev.is(LOCAL_BID_DEPTH_CLEAR_EVENT) {
            self.depth.clear_depth(Side::Buy, Some(ev.px));
        } else if ev.is(LOCAL_ASK_DEPTH_CLEAR_EVENT) {
            self.depth.clear_depth(Side::Sell, Some(ev.px));
        } else if ev.is(LOCAL_DEPTH_CLEAR_EVENT) {
            self.depth.clear_depth(Side::Buy, None);
            self.depth.clear_depth(Side::Sell, None);
        } else if ev.is(LOCAL_BID_DEPTH_EVENT) || ev.is(LOCAL_BID_DEPTH_SNAPSHOT_EVENT) {
            let _ = self.depth.update_bid_depth(ev.px, ev.qty, ev.local_ts);
            if ev.is(LOCAL_BID_DEPTH_SNAPSHOT_EVENT) {
                self.depth.mark_depth_ready();
            }
        } else if ev.is(LOCAL_ASK_DEPTH_EVENT) || ev.is(LOCAL_ASK_DEPTH_SNAPSHOT_EVENT) {
            let _ = self.depth.update_ask_depth(ev.px, ev.qty, ev.local_ts);
            if ev.is(LOCAL_ASK_DEPTH_SNAPSHOT_EVENT) {
                self.depth.mark_depth_ready();
            }
        } else if ev.is(LOCAL_TRADE_EVENT) && self.record_trades {
            // Processes a trade event
            self.trades.push_back(*ev);
            self.advance_trade_time(ev.local_ts);
        }
        // Stores the current feed latency
        self.last_feed_latency = Some((ev.exch_ts, ev.local_ts));
    }

    /// Takes an update that is received at a time into account.
    fn take_update(&mut self, update: OrderUpdate, timestamp: i64) -> (r: Result<(), BacktestError>)
        requires
            old(self).wf(),
        ensures
            final(self).wf(),
            final(self).same_feed(old(self)),
            final(self).next_request_id == old(self).next_request_id,
            final(self).order_l2e == old(self).order_l2e,
            match received(
                old(self).state.asset_type,
                old(self).state.fee_model,
                old(self).records(),
                update@,
                timestamp,
            ) {
                Ok(after) => r is Ok && final(self).records() == after,
                Err(error) => r == Err::<(), BacktestError>(error) && (error.refuses()
                    ==> final(self).records() == (OrderRecords {
                    last_order_latency: latency_seen(old(self).records(), update@, timestamp),
                    ..old(self).records()
                })),
            },
    {
        let order_id: OrderId = update.order_id;
        proof {
            lemma_viewed_below(self.orders@, order_id as int);
        }
        let pending: Option<OrderRequest> = match update.request_result {
            None => None,
            Some(result) => match self.pending_requests.get(&order_id) {
                None => None,
                Some(request) => if request.request_id() == result.request_id {
                    Some(*request)
                } else {
                    None
                },
            },
        };
        assert(pending == answered_request(self.pending_requests@, update@));
        if let Some(request) = pending {
            self.last_order_latency = Some(
                (request.local_timestamp(), update.exch_timestamp, timestamp),
            );
        }
        if update.state.is_some() && !self.orders.contains(&order_id) {
            match pending {
                Some(OrderRequest::New { order: new, .. }) => {
                    let order: Order = Order::from_new(&new);
                    proof {
                        lemma_viewed_inserted(self.orders@, order_id, order);
                    }
                    self.orders.insert(order_id, order);
                },
                _ => {
                    return Err(BacktestError::InvalidOrderRequest);
                },
            }
        }
        let ghost known = self.orders@;
        proof {
            lemma_viewed_below(known, order_id as int);
        }
        if let Some(i) = self.orders.find(&order_id) {
            match apply_fills(&mut self.state, &mut self.orders.entries[i].1, &update.fills) {
                Ok(()) => {},
                Err(error) => {
                    proof {
                        lemma_entry_updated(known, self.orders@, order_id, i as int);
                    }
                    return Err(error);
                },
            }
            if let Some(state) = &update.state {
                self.orders.entries[i].1.apply_state(state, update.exch_timestamp);
            }
            proof {
                lemma_entry_updated(known, self.orders@, order_id, i as int);
                lemma_viewed_inserted(known, order_id, self.orders@[i as int].1);
            }
        }
        if let Some(result) = update.request_result {
            self.last_request_results.insert(order_id, result);
            proof {
                lemma_pending_removed(self.pending_requests@, self.next_request_id, order_id);
            }
            let _ = self.pending_requests.remove(&order_id);
        }
        Ok(())
    }

    /// Processes the updates that are received at `timestamp`. Returns whether the answer to a
    /// request about the order that is waited for was among them.
    pub fn process_recv_order(
        &mut self,
        link: &mut OrderLink<OrderRequest, OrderUpdate>,
        timestamp: i64,
        wait_resp_order_id: Option<OrderId>,
    ) -> (r: Result<bool, BacktestError>)
        requires
            old(self).wf(),
            old(link).wf(),
            nothing_overdue(old(link).to_local@, timestamp),
        ensures
            final(self).wf(),
            final(link).wf(),
            final(link).to_exch@ == old(link).to_exch@,
            final(self).same_feed(old(self)),
            final(self).next_request_id == old(self).next_request_id,
            final(self).order_l2e == old(self).order_l2e,
            match all_received(
                old(self).state.asset_type,
                old(self).state.fee_model,
                old(self).records(),
                old(link).to_local@,
                timestamp,
                wait_resp_order_id,
                false,
            ) {
                Ok(after) => r == Ok::<bool, BacktestError>(after.2) && final(self).records()
                    == after.0 && final(link).to_local@ == after.1,
                Err(error) => r == Err::<bool, BacktestError>(error) && (error.refuses() ==> (
                    final(self).records(),
                    final(link).to_local@,
                ) == at_refusal(
                    old(self).state.asset_type,
                    old(self).state.fee_model,
                    old(self).records(),
                    old(link).to_local@,
                    timestamp,
                )),
            },
    {
        let mut handled: Vec<Order> = Vec::new();
        self.process_recv_order_::<false>(link, timestamp, wait_resp_order_id, &mut handled)
    }

    /// Processes the updates that are received at `timestamp`. Returns whether the answer to a
    /// request about the order that is waited for was among them. With `USE_HANDLER` the order of
    /// each update is handed on, as the update left it.
    pub fn process_recv_order_<const USE_HANDLER: bool>(
        &mut self,
        link: &mut OrderLink<OrderRequest, OrderUpdate>,
        timestamp: i64,
        wait_resp_order_id: Option<OrderId>,
        handled: &mut Vec<Order>,
    ) -> (r: Result<bool, BacktestError>)
        requires
            old(self).wf(),
            old(link).wf(),
            nothing_overdue(old(link).to_local@, timestamp),
        ensures
            final(self).wf(),
            final(link).wf(),
            final(link).to_exch@ == old(link).to_exch@,
            final(self).same_feed(old(self)),
            final(self).next_request_id == old(self).next_request_id,
            final(self).order_l2e == old(self).order_l2e,
            match all_received(
                old(self).state.asset_type,
                old(self).state.fee_model,
                old(self).records(),
                old(link).to_local@,
                timestamp,
                wait_resp_order_id,
                false,
            ) {
                Ok(after) => r == Ok::<bool, BacktestError>(after.2) && final(self).records()
                    == after.0 && final(link).to_local@ == after.1,
                Err(error) => r == Err::<bool, BacktestError>(error) && (error.refuses() ==> (
                    final(self).records(),
                    final(link).to_local@,
                ) == at_refusal(
                    old(self).state.asset_type,
                    old(self).state.fee_model,
                    old(self).records(),
                    old(link).to_local@,
                    timestamp,
                )),
            },
            order_models(final(handled)@) == order_models(old(handled)@) + (if USE_HANDLER {
                handled_orders(
                    old(self).state.asset_type,
                    old(self).state.fee_model,
                    old(self).records(),
                    old(link).to_local@,
                    timestamp,
                )
            } else {
                Seq::empty()
            }),
    {
        let mut wait_resp_order_received: bool = false;
        let ghost asset_type = self.state.asset_type;
        let ghost fee_model = self.state.fee_model;
        let ghost expected = all_received(
            asset_type,
            fee_model,
            self.records(),
            link.to_local@,
            timestamp,
            wait_resp_order_id,
            false,
        );
        let ghost stop = at_refusal(
            asset_type,
            fee_model,
            self.records(),
            link.to_local@,
            timestamp,
        );
        let ghost to_hand = if USE_HANDLER {
            handled_orders(asset_type, fee_model, self.records(), link.to_local@, timestamp)
        } else {
            Seq::empty()
        };
        assert(order_models(handled@) + to_hand =~= order_models(old(handled)@) + to_hand);
        loop
            invariant_except_break
                stop == at_refusal(
                    asset_type,
                    fee_model,
                    self.records(),
                    link.to_local@,
                    timestamp,
                ),
                expected == all_received(
                    asset_type,
                    fee_model,
                    self.records(),
                    link.to_local@,
                    timestamp,
                    wait_resp_order_id,
                    wait_resp_order_received,
                ),
                order_models(old(handled)@) + to_hand == order_models(handled@) + (if USE_HANDLER {
                    handled_orders(
                        asset_type,
                        fee_model,
                        self.records(),
                        link.to_local@,
                        timestamp,
                    )
                } else {
                    Seq::empty()
                }),
            invariant
                self.wf(),
                link.wf(),
                nothing_overdue(link.to_local@, timestamp),
                link.to_exch@ == old(link).to_exch@,
                self.same_feed(old(self)),
                self.next_request_id == old(self).next_request_id,
                self.order_l2e == old(self).order_l2e,
                asset_type == self.state.asset_type,
                fee_model == self.state.fee_model,
                asset_type == old(self).state.asset_type,
                fee_model == old(self).state.fee_model,
                expected == all_received(
                    asset_type,
                    fee_model,
                    old(self).records(),
                    old(link).to_local@,
                    timestamp,
                    wait_resp_order_id,
                    false,
                ),
                stop == at_refusal(
                    asset_type,
                    fee_model,
                    old(self).records(),
                    old(link).to_local@,
                    timestamp,
                ),
                to_hand == (if USE_HANDLER {
                    handled_orders(
                        asset_type,
                        fee_model,
                        old(self).records(),
                        old(link).to_local@,
                        timestamp,
                    )
                } else {
                    Seq::empty()
                }),
            ensures
                expected == Ok::<(OrderRecords, Seq<(UpdateModel, i64)>, bool), BacktestError>(
                    (self.records(), link.to_local@, wait_resp_order_received),
                ),
                order_models(handled@) == order_models(old(handled)@) + to_hand,
            decreases link.to_local@.len(),
        {
            let ghost before = handled@;
            match self.order_l2e.receive(link, timestamp) {
                Some(update) => {
                    let order_id: OrderId = update.order_id;
                    let ghost received_update = update@;
                    if let Some(waited) = wait_resp_order_id {
                        if update.order_id == waited && update.request_result.is_some() {
                            wait_resp_order_received = true;
                        }
                    }
                    match self.take_update(update, timestamp) {
                        Ok(()) => {},
                        Err(error) => {
                            assert(order_models(handled@) =~= order_models(old(handled)@)
                                + to_hand);
                            return Err(error);
                        },
                    }
                    let ghost rest = handled_orders(
                        asset_type,
                        fee_model,
                        self.records(),
                        link.to_local@,
                        timestamp,
                    );
                    if USE_HANDLER {
                        proof {
                            lemma_viewed_below(self.orders@, order_id as int);
                        }
                        if let Some(order) = self.orders.get(&order_id) {
                            handled.push(order.copy());
                        }
                        assert(order_models(handled@) =~= order_models(before) + handled_order(
                            self.records(),
                            received_update,
                        ));
                        assert(order_models(before) + (handled_order(
                            self.records(),
                            received_update,
                        ) + rest) =~= order_models(handled@) + rest);
                    }
                },
                None => {
                    assert(order_models(handled@) + Seq::<OrderModel>::empty() =~= order_models(
                        handled@,
                    ));
                    break ;
                },
            }
        }
        Ok(wait_resp_order_received)
    }

    /// Returns the foremost timestamp at which an update is to be received by the local side.
    pub fn earliest_recv_order_timestamp(&self, link: &OrderLink<OrderRequest, OrderUpdate>) -> (r:
        i64)
        ensures
            r == (if link.to_local@.len() == 0 {
                i64::MAX
            } else {
                link.to_local@[0].1
            }),
    {
        match self.order_l2e.earliest_recv_order_timestamp(link) {
            Some(timestamp) => timestamp,
            None => i64::MAX,
        }
    }

    /// Returns the foremost timestamp at which a request sent by the local side is to be received by
    /// the exchange.
    pub fn earliest_send_order_timestamp(&self, link: &OrderLink<OrderRequest, OrderUpdate>) -> (r:
        i64)
        ensures
            r == (if link.to_exch@.len() == 0 {
                i64::MAX
            } else {
                link.to_exch@[0].1
            }),
    {
        match self.order_l2e.earliest_send_order_timestamp(link) {
            Some(timestamp) => timestamp,
            None => i64::MAX,
        }
    }
}

/// The time up to which trades are forgotten.
fn cutoff_of(timestamp: i64, horizon: u128) -> (r: i64)
    ensures
        r == trade_cutoff(timestamp, horizon),
{
    let room: i128 = timestamp as i128 - i64::MIN as i128;
    if horizon >= room as u128 {
        i64::MIN
    } else {
        (timestamp as i128 - horizon as i128) as i64
    }
}

impl TradeLog {
    /// The log after its trades were forgotten.
    pub open spec fn cleared(self) -> TradeLog {
        TradeLog {
            trades: Seq::empty(),
            since: match self.since {
                Some(_) => Some(self.time),
                None => None,
            },
            ..self
        }
    }
}

/// A change of the value of an entry is what putting the value under its key does.
proof fn lemma_entry_updated(
    before: Seq<(OrderId, Order)>,
    after: Seq<(OrderId, Order)>,
    order_id: OrderId,
    i: int,
)
    requires
        ordered(before),
        0 <= i < before.len(),
        i == below(before, order_id as int),
        holds(before, order_id as int),
        after.len() == before.len(),
        after[i].0 == before[i].0,
        forall|k: int| 0 <= k < before.len() && k != i ==> (#[trigger] after[k]) == before[k],
    ensures
        ordered(after),
        after == inserted(before, order_id, after[i].1),
{
    assert(after =~= before.update(i, (before[i].0, after[i].1)));
    lemma_inserted(before, order_id, after[i].1);
}

/// Taking the request of an order out keeps the others in order.
proof fn lemma_pending_removed(
    pending: Seq<(OrderId, OrderRequest)>,
    next_request_id: u64,
    order_id: OrderId,
)
    requires
        ordered(pending),
        pending_ok(pending, next_request_id),
    ensures
        pending_ok(removed(pending, order_id as int), next_request_id),
{
    let n = below(pending, order_id as int);
    crate::sorted_map::lemma_below_splits(pending, order_id as int);
    let t = removed(pending, order_id as int);
    assert forall|i: int| 0 <= i < t.len() implies (#[trigger] t[i]).1.about() == t[i].0
        && t[i].1.id() < next_request_id by {
        if holds(pending, order_id as int) && i >= n {
            assert(t[i] == pending[i + 1]);
        } else {
            assert(t[i] == pending[i]);
        }
    }
}

/// Request numbers are never reused: a request that is sent gets a number above those of all
/// requests that are waited for, and is itself waited for from then on.
pub proof fn request_numbers_are_never_reused<LM: LatencyModel<OrderRequest, OrderUpdate>>(
    requests: Requests<LM>,
    request: OrderRequest,
    timestamp: i64,
)
    requires
        ordered(requests.pending),
        pending_ok(requests.pending, requests.next_request_id),
        request.id() == requests.next_request_id,
    ensures
        forall|i: int|
            0 <= i < requests.pending.len() ==> (#[trigger] requests.pending[i]).1.id()
                < request.id(),
        asked(requests, request, timestamp) matches Ok(after) ==> {
            &&& pending_ok(after.pending, after.next_request_id)
            &&& lookup(after.pending, request.about() as int) == Some(request)
        },
{
    if requests.next_request_id < u64::MAX {
        lemma_pending_asked(requests.pending, requests.next_request_id, request);
    }
    lemma_inserted(requests.pending, request.about(), request);
}

/// An answer ends the wait for its request: the order has no request under way any more, and the
/// answer is remembered.
pub proof fn answers_end_the_wait<AT: AssetType, FM: FeeModel>(
    asset_type: AT,
    fee_model: FM,
    records: OrderRecords,
    update: UpdateModel,
    timestamp: i64,
)
    requires
        ordered(records.pending),
        ordered(records.results),
        update.request_result is Some,
    ensures
        received(asset_type, fee_model, records, update, timestamp) matches Ok(after) ==> {
            &&& lookup(after.pending, update.order_id as int) is None
            &&& lookup(after.results, update.order_id as int) == update.request_result
        },
{
    lemma_removed(records.pending, update.order_id as int);
    lemma_inserted(records.results, update.order_id, update.request_result->0);
}

/// Without a horizon, every recorded trade is remembered until the trades are cleared.
pub proof fn trades_are_kept_until_cleared(log: TradeLog, event: Event)
    ensures
        log.seen(true, None, event).trades == (if is_trade(event) {
            log.trades.push(event)
        } else {
            log.trades
        }),
        log.cleared().trades == Seq::<Event>::empty(),
{
}

/// Every trade after the time that the log gives is remembered: moving the log to a later time
/// forgets no trade that is after it.
pub proof fn later_trades_are_remembered(
    log: TradeLog,
    recording: bool,
    horizon: Option<u128>,
    timestamp: i64,
    i: int,
)
    requires
        0 <= i < log.trades.len(),
        recording ==> log.trades[i].local_ts > log.at(recording, horizon, timestamp).since->0,
    ensures
        log.at(recording, horizon, timestamp).trades.contains(log.trades[i]),
{
    if recording && horizon is Some {
        lemma_trades_after_keeps(log.trades, trade_cutoff(timestamp, horizon->0), i);
    }
}

/// Forgetting the first trades keeps those that are after a time.
proof fn lemma_trades_after_keeps(trades: Seq<Event>, cutoff: i64, i: int)
    requires
        0 <= i < trades.len(),
        trades[i].local_ts > cutoff,
    ensures
        trades_after(trades, cutoff).contains(trades[i]),
    decreases trades.len(),
{
    if trades[0].local_ts <= cutoff {
        assert(trades.skip(1)[i - 1] == trades[i]);
        lemma_trades_after_keeps(trades.skip(1), cutoff, i - 1);
    }
}

/// Trades that are seen in the order of their times and are not after the horizon are forgotten.
pub proof fn older_trades_are_forgotten(log: TradeLog, horizon: u128, timestamp: i64)
    requires
        forall|i: int, j: int|
            0 <= i < j < log.trades.len() ==> (#[trigger] log.trades[i]).local_ts <= (
            #[trigger] log.trades[j]).local_ts,
    ensures
        forall|i: int|
            0 <= i < log.at(true, Some(horizon), timestamp).trades.len() ==> (
            #[trigger] log.at(true, Some(horizon), timestamp).trades[i]).local_ts > trade_cutoff(
                timestamp,
                horizon,
            ),
{
    lemma_trades_after_are_later(log.trades, trade_cutoff(timestamp, horizon));
}

/// In the order of their times, the trades that stay are after the time.
proof fn lemma_trades_after_are_later(trades: Seq<Event>, cutoff: i64)
    requires
        forall|i: int, j: int|
            0 <= i < j < trades.len() ==> (#[trigger] trades[i]).local_ts <= (
            #[trigger] trades[j]).local_ts,
    ensures
        forall|i: int|
            0 <= i < trades_after(trades, cutoff).len() ==> (#[trigger] trades_after(
                trades,
                cutoff,
            )[i]).local_ts > cutoff,
    decreases trades.len(),
{
    if trades.len() > 0 {
        if trades[0].local_ts <= cutoff {
            let rest = trades.skip(1);
            assert forall|i: int, j: int| 0 <= i < j < rest.len() implies (
            #[trigger] rest[i]).local_ts <= (#[trigger] rest[j]).local_ts by {
                assert(rest[i] == trades[i + 1] && rest[j] == trades[j + 1]);
            }
            lemma_trades_after_are_later(rest, cutoff);
            assert(trades_after(trades, cutoff) == trades_after(rest, cutoff));
        } else {
            assert(trades_after(trades, cutoff) == trades);
            assert forall|i: int| 0 <= i < trades.len() implies (#[trigger] trades[i]).local_ts
                > cutoff by {
                if i > 0 {
                    assert(trades[0].local_ts <= trades[i].local_ts);
                }
            }
        }
    }
}

/// Clearing forgets no order that is active or waits for an answer.
pub proof fn live_orders_are_kept(
    orders: Seq<(OrderId, OrderModel)>,
    pending: Seq<(OrderId, OrderRequest)>,
    i: int,
)
    requires
        0 <= i < orders.len(),
    ensures
        live_orders(orders, pending).contains(orders[i]) <== (orders[i].1.status
            == OrderStatus::Open || holds(pending, orders[i].0 as int)),
    decreases orders.len(),
{
    if orders[i].1.status == OrderStatus::Open || holds(pending, orders[i].0 as int) {
        let t = live_orders(orders, pending);
        if i == orders.len() - 1 {
            assert(t.last() == orders[i]);
        } else {
            live_orders_are_kept(orders.drop_last(), pending, i);
            assert(orders.drop_last()[i] == orders[i]);
            let before = live_orders(orders.drop_last(), pending);
            let k = choose|k: int| 0 <= k < before.len() && before[k] == orders[i];
            assert(t[k] == orders[i]);
        }
    }
}

/// The local side learns of an order what the exchange made of it: when the answer to the submission
/// is received, both sides have the same order, with the same fills, and what they traded with it is
/// the same.
pub proof fn both_sides_agree_on_a_placed_order<
    AT: AssetType,
    FM: FeeModel,
    QM: QueueModel<MD>,
    MD: MarketDepth,
>(
    venue: Venue<AT, FM, QM>,
    book: Book,
    ledger: Ledger<QM::State>,
    request: OrderRequest,
    arrival: i64,
    records: OrderRecords,
    receipt: i64,
)
    requires
        request is New,
        ordered(records.orders),
        !holds(records.orders, request.about() as int),
        lookup(records.pending, request.about() as int) == Some(request),
        records.values == ledger.values,
    ensures
        acted::<AT, FM, QM, MD>(venue, book, ledger, request, arrival) matches Ok(done) ==> {
            let update = answer(request, done, arrival);
            &&& received(
                venue.asset_type,
                venue.fee_model,
                records,
                update,
                receipt,
            ) matches Ok(after) && lookup(after.orders, request.about() as int) == done.order
                && after.values == done.ledger.values
        },
{
    match acted::<AT, FM, QM, MD>(venue, book, ledger, request, arrival) {
        Err(_) => {},
        Ok(done) => {
            let update = answer(request, done, arrival);
            let new = request->New_order;
            let order = done.order->0;
            let first = OrderModel::placed(new);
            let id = request.about();
            lemma_inserted(records.orders, id, first);
            let orders = inserted(records.orders, id, first);
            if update.fills.len() == 0 {
                assert(update.fills =~= Seq::empty());
                assert(first.with_fills(update.fills) == Some(first));
            } else {
                assert(update.fills.len() == 1);
                assert(update.fills.drop_last() =~= Seq::empty());
                assert(first.with_fills(update.fills.drop_last()) == Some(first));
                assert(all_filled_values(
                    records.values,
                    venue.asset_type,
                    venue.fee_model,
                    first.side,
                    update.fills.drop_last(),
                ) == Some(records.values));
            }
            let after = order_updated(
                venue.asset_type,
                venue.fee_model,
                records.values,
                first,
                update,
            );
            assert((after->0).0 =~= order);
            lemma_inserted(orders, id, (after->0).0);
        },
    }
}

} // verus!
