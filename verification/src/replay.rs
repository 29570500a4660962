//! Calls as values, so that the same calls can be made on several replays.
//!
//! Replays in the same state stay in the same state while the same calls are made on them, and give
//! the same answers.
use vstd::prelude::*;

use crate::assettype::AssetType;
use crate::data::reader::Preprocessor;
use crate::decimal::Decimal;
use crate::depth::L2MarketDepth;
use crate::error::BacktestError;
use crate::lifecycle::NewOrder;
use crate::lifecycle::OrderRequest;
use crate::lifecycle::OrderUpdate;
use crate::lifecycle::UpdateModel;
use crate::models::fee::FeeModel;
use crate::models::latency::LatencyModel;
use crate::models::queue::QueueModel;
use crate::order_bus::nothing_overdue;
use crate::order_bus::Message;
use crate::order_bus::OrderLink;
use crate::processor::local;
use crate::processor::local::asked;
use crate::processor::local::book_after;
use crate::processor::local::cancel_fault;
use crate::processor::local::live_orders;
use crate::processor::local::modify_fault;
use crate::processor::local::submit_fault;
use crate::processor::local::Local;
use crate::processor::local::OrderRecords;
use crate::processor::local::Requests;
use crate::processor::nopartialfillexchange;
use crate::processor::nopartialfillexchange::Desk;
use crate::processor::nopartialfillexchange::NoPartialFillExchange;
use crate::processor::nopartialfillexchange::RestingModel;
use crate::processor::partialfillexchange;
use crate::processor::partialfillexchange::Counter;
use crate::processor::partialfillexchange::PartialFillExchange;
use crate::processor::partialfillexchange::QueuedOrder;
use crate::snapshot::restoring_gives_the_saved_state;
use crate::snapshot::Backtest;
use crate::snapshot::ExchangeState;
use crate::snapshot::LocalState;
use crate::snapshot::SnapshotDepth;
use crate::snapshot::SnapshotProcessor;
use crate::snapshot::SnapshotState;
use crate::types::Event;
use crate::types::Order;
use crate::types::OrderId;
use crate::types::PriceMatch;

verus! {

/// A call that is made on the local side.
#[derive(Clone, Copy, Debug)]
pub enum LocalCall {
    /// Submits a new order.
    Submit {
        /// The order.
        order: NewOrder,
        /// The current time.
        timestamp: i64,
    },
    /// Modifies an open order.
    Modify {
        /// The order.
        order_id: OrderId,
        /// The new price.
        price: Decimal,
        /// How the price is found.
        price_match: PriceMatch,
        /// The new total quantity.
        qty: Decimal,
        /// The current time.
        timestamp: i64,
    },
    /// Cancels an open order.
    Cancel {
        /// The order.
        order_id: OrderId,
        /// The current time.
        timestamp: i64,
    },
    /// Forgets the orders that are neither active nor wait for an answer.
    ClearInactiveOrders,
    /// Forgets the trades.
    ClearLastTrades,
    /// Moves the log of trades to a later time.
    AdvanceTradeTime(i64),
    /// Processes an event that the local side sees.
    Process(Event),
    /// Processes the updates that are received at a time.
    Receive {
        /// The time.
        timestamp: i64,
        /// The order whose answer is waited for.
        wait: Option<OrderId>,
    },
}

/// The local side and the messages under way.
pub struct LocalWorld<AT, LM, FM> {
    /// The state of the local side.
    pub state: LocalState<AT, LM, FM>,
    /// The requests under way.
    pub to_exch: Seq<(OrderRequest, i64)>,
    /// The updates under way.
    pub to_local: Seq<(UpdateModel, i64)>,
}

/// What making a request gives and leaves. What is left is open where the request could not be sent.
pub open spec fn request_made<AT, LM: LatencyModel<OrderRequest, OrderUpdate>, FM>(
    world: LocalWorld<AT, LM, FM>,
    fault: Option<BacktestError>,
    request: OrderRequest,
    timestamp: i64,
) -> (Result<bool, BacktestError>, Option<LocalWorld<AT, LM, FM>>) {
    let requests = Requests {
        pending: world.state.records.pending,
        next_request_id: world.state.next_request_id,
        latency: world.state.latency,
        to_exch: world.to_exch,
    };
    match fault {
        Some(error) => (Err(error), Some(world)),
        None => match asked(requests, request, timestamp) {
            Err(error) => (Err(error), None),
            Ok(after) => (
                Ok(false),
                Some(
                    LocalWorld {
                        state: LocalState {
                            records: OrderRecords { pending: after.pending, ..world.state.records },
                            next_request_id: after.next_request_id,
                            latency: after.latency,
                            ..world.state
                        },
                        to_exch: after.to_exch,
                        ..world
                    },
                ),
            ),
        },
    }
}

/// What a call on the local side gives and leaves. What is left is open where the call ends with a
/// number that cannot be held, or with a request or an update that cannot be followed up.
pub open spec fn local_after<
    AT: AssetType,
    LM: LatencyModel<OrderRequest, OrderUpdate>,
    FM: FeeModel,
>(world: LocalWorld<AT, LM, FM>, call: LocalCall) -> (
    Result<bool, BacktestError>,
    Option<LocalWorld<AT, LM, FM>>,
) {
    let state = world.state;
    let records = state.records;
    match call {
        LocalCall::Submit { order, timestamp } => request_made(
            world,
            submit_fault(records.orders, records.pending, order),
            OrderRequest::New {
                request_id: state.next_request_id,
                local_timestamp: timestamp,
                order,
            },
            timestamp,
        ),
        LocalCall::Modify { order_id, price, price_match, qty, timestamp } => request_made(
            world,
            modify_fault(records.orders, records.pending, order_id, price_match),
            OrderRequest::Modify {
                request_id: state.next_request_id,
                local_timestamp: timestamp,
                order_id,
                price,
                price_match,
                qty,
            },
            timestamp,
        ),
        LocalCall::Cancel { order_id, timestamp } => request_made(
            world,
            cancel_fault(records.orders, records.pending, order_id),
            OrderRequest::Cancel {
                request_id: state.next_request_id,
                local_timestamp: timestamp,
                order_id,
            },
            timestamp,
        ),
        LocalCall::ClearInactiveOrders => (
            Ok(false),
            Some(
                LocalWorld {
                    state: LocalState {
                        records: OrderRecords {
                            orders: live_orders(records.orders, records.pending),
                            ..records
                        },
                        ..state
                    },
                    ..world
                },
            ),
        ),
        LocalCall::ClearLastTrades => (
            Ok(false),
            Some(LocalWorld { state: LocalState { log: state.log.cleared(), ..state }, ..world }),
        ),
        LocalCall::AdvanceTradeTime(timestamp) => (
            Ok(false),
            Some(
                LocalWorld {
                    state: LocalState {
                        log: state.log.at(state.record_trades, state.trade_horizon, timestamp),
                        ..state
                    },
                    ..world
                },
            ),
        ),
        LocalCall::Process(event) => (
            Ok(false),
            Some(
                LocalWorld {
                    state: LocalState {
                        book: book_after(state.book, event),
                        log: state.log.seen(state.record_trades, state.trade_horizon, event),
                        last_feed_latency: Some((event.exch_ts, event.local_ts)),
                        ..state
                    },
                    ..world
                },
            ),
        ),
        LocalCall::Receive { timestamp, wait } => match local::all_received(
            state.asset_type,
            state.fee_model,
            records,
            world.to_local,
            timestamp,
            wait,
            false,
        ) {
            Ok((after, to_local, answered)) => (
                Ok(answered),
                Some(
                    LocalWorld { state: LocalState { records: after, ..state }, to_local, ..world },
                ),
            ),
            Err(error) => (
                Err(error),
                if error.refuses() {
                    let (after, to_local) = local::at_refusal(
                        state.asset_type,
                        state.fee_model,
                        records,
                        world.to_local,
                        timestamp,
                    );
                    Some(
                        LocalWorld {
                            state: LocalState { records: after, ..state },
                            to_local,
                            ..world
                        },
                    )
                } else {
                    None
                },
            ),
        },
    }
}

/// What calls on the local side give, one after the other, and what they leave. Behind a call that
/// leaves the state open nothing is said.
pub open spec fn local_run<
    AT: AssetType,
    LM: LatencyModel<OrderRequest, OrderUpdate>,
    FM: FeeModel,
>(world: LocalWorld<AT, LM, FM>, calls: Seq<LocalCall>) -> (
    Seq<Result<bool, BacktestError>>,
    Option<LocalWorld<AT, LM, FM>>,
)
    decreases calls.len(),
{
    if calls.len() == 0 {
        (Seq::empty(), Some(world))
    } else {
        let (results, before) = local_run(world, calls.drop_last());
        match before {
            None => (results, None),
            Some(before) => {
                let (result, after) = local_after(before, calls.last());
                (results.push(result), after)
            },
        }
    }
}

impl<
    AT: AssetType,
    LM: LatencyModel<OrderRequest, OrderUpdate>,
    MD: L2MarketDepth,
    FM: FeeModel,
> Local<AT, LM, MD, FM> {
    /// The local side and the messages under way.
    pub open spec fn world(&self, link: &OrderLink<OrderRequest, OrderUpdate>) -> LocalWorld<
        AT,
        LM,
        FM,
    > {
        LocalWorld { state: self@, to_exch: link.to_exch@, to_local: link.to_local@ }
    }

    /// Makes a call. The answer is whether the response that is waited for was received.
    pub fn replay(
        &mut self,
        link: &mut OrderLink<OrderRequest, OrderUpdate>,
        call: &LocalCall,
    ) -> (r: Result<bool, BacktestError>)
        requires
            old(self).wf(),
            old(link).wf(),
            *call matches LocalCall::Receive { timestamp, .. } ==> nothing_overdue(
                old(link).to_local@,
                timestamp,
            ),
        ensures
            final(self).wf(),
            final(link).wf(),
            r == local_after(old(self).world(old(link)), *call).0,
            local_after(old(self).world(old(link)), *call).1 matches Some(world)
                ==> final(self).world(final(link)) == world,
    {
        match *call {
            LocalCall::Submit { order, timestamp } => {
                match self.submit_order(
                    link,
                    order.order_id,
                    order.side,
                    order.price,
                    order.price_match,
                    order.qty,
                    order.order_type,
                    order.time_in_force,
                    timestamp,
                ) {
                    Ok(()) => Ok(false),
                    Err(error) => Err(error),
                }
            },
            LocalCall::Modify { order_id, price, price_match, qty, timestamp } => {
                match self.modify(link, order_id, price, price_match, qty, timestamp) {
                    Ok(()) => Ok(false),
                    Err(error) => Err(error),
                }
            },
            LocalCall::Cancel { order_id, timestamp } => {
                match self.cancel(link, order_id, timestamp) {
                    Ok(()) => Ok(false),
                    Err(error) => Err(error),
                }
            },
            LocalCall::ClearInactiveOrders => {
                self.clear_inactive_orders();
                Ok(false)
            },
            LocalCall::ClearLastTrades => {
                self.clear_last_trades();
                Ok(false)
            },
            LocalCall::AdvanceTradeTime(timestamp) => {
                self.advance_trade_time(timestamp);
                Ok(false)
            },
            LocalCall::Process(event) => {
                self.process(&event);
                Ok(false)
            },
            LocalCall::Receive { timestamp, wait } => {
                self.process_recv_order(link, timestamp, wait)
            },
        }
    }
}

/// Local sides in the same state, with the same messages under way, give the same answers to the
/// same calls and are in the same state after them.
pub proof fn equal_local_sides_stay_equal<
    AT: AssetType,
    LM: LatencyModel<OrderRequest, OrderUpdate>,
    MD: L2MarketDepth,
    FM: FeeModel,
>(
    a: Local<AT, LM, MD, FM>,
    a_link: OrderLink<OrderRequest, OrderUpdate>,
    b: Local<AT, LM, MD, FM>,
    b_link: OrderLink<OrderRequest, OrderUpdate>,
    calls: Seq<LocalCall>,
)
    requires
        a@ == b@,
        a_link.to_exch@ == b_link.to_exch@,
        a_link.to_local@ == b_link.to_local@,
    ensures
        local_run(a.world(&a_link), calls) == local_run(b.world(&b_link), calls),
{
}

/// A call that is made on an exchange.
#[derive(Clone, Copy, Debug)]
pub enum ExchangeCall {
    /// Processes an event.
    Process(Event),
    /// Processes the requests that are received at a time.
    Receive(i64),
}

/// An exchange and the messages under way.
pub struct ExchangeWorld<S, Q, R> {
    /// The state of the exchange.
    pub state: S,
    /// The requests under way.
    pub to_exch: Seq<(Q, i64)>,
    /// The responses under way.
    pub to_local: Seq<(R, i64)>,
}

/// The state of an exchange that fills orders whole, from what it keeps besides its models, its rules and its book.
pub open spec fn whole_fill_state<AT, LM, QM: QueueModel<MD>, MD: L2MarketDepth, FM>(
    state: ExchangeState<AT, LM, QM, FM, RestingModel<QM::State>>,
    kept: Desk<QM::State, LM>,
) -> ExchangeState<AT, LM, QM, FM, RestingModel<QM::State>> {
    ExchangeState {
        orders: kept.orders,
        values: kept.values,
        latency: kept.latency,
        ..state
    }
}

/// What a call on an exchange that fills orders whole gives and leaves. What is left is open where the call ends with an error
/// other than a refusal.
pub open spec fn whole_fill_after<
    AT: AssetType,
    LM: LatencyModel<OrderRequest, OrderUpdate>,
    QM: QueueModel<MD>,
    MD: L2MarketDepth,
    FM: FeeModel,
>(
    world: ExchangeWorld<ExchangeState<AT, LM, QM, FM, RestingModel<QM::State>>, OrderRequest, UpdateModel>,
    call: ExchangeCall,
) -> (
    Result<bool, BacktestError>,
    Option<ExchangeWorld<ExchangeState<AT, LM, QM, FM, RestingModel<QM::State>>, OrderRequest, UpdateModel>>,
) {
    let state = world.state;
    let kept = Desk {
        orders: state.orders,
        values: state.values,
        latency: state.latency,
        to_local: world.to_local,
    };
    match call {
        ExchangeCall::Process(event) => match nopartialfillexchange::processed::<AT, LM, QM, MD, FM>(
            state.venue,
            state.book,
            kept,
            event,
        ) {
            Ok((book, after)) => (
                Ok(false),
                Some(
                    ExchangeWorld {
                        state: ExchangeState {
                            book,
                            ..whole_fill_state::<AT, LM, QM, MD, FM>(state, after)
                        },
                        to_local: after.to_local,
                        ..world
                    },
                ),
            ),
            Err(error) => (Err(error), None),
        },
        ExchangeCall::Receive(timestamp) => match nopartialfillexchange::all_answered::<AT, LM, QM, MD, FM>(
            state.venue,
            state.book,
            kept,
            world.to_exch,
            timestamp,
        ) {
            Ok((after, to_exch)) => (
                Ok(false),
                Some(
                    ExchangeWorld {
                        state: whole_fill_state::<AT, LM, QM, MD, FM>(state, after),
                        to_exch,
                        to_local: after.to_local,
                    },
                ),
            ),
            Err(error) => (
                Err(error),
                if error.refuses() {
                    let (after, to_exch) = nopartialfillexchange::at_refusal::<AT, LM, QM, MD, FM>(
                        state.venue,
                        state.book,
                        kept,
                        world.to_exch,
                        timestamp,
                    );
                    Some(
                        ExchangeWorld {
                            state: whole_fill_state::<AT, LM, QM, MD, FM>(state, after),
                            to_exch,
                            to_local: after.to_local,
                        },
                    )
                } else {
                    None
                },
            ),
        },
    }
}

/// What calls on an exchange that fills orders whole give, one after the other, and what they leave. Behind a call that leaves
/// the state open nothing is said.
pub open spec fn whole_fill_run<
    AT: AssetType,
    LM: LatencyModel<OrderRequest, OrderUpdate>,
    QM: QueueModel<MD>,
    MD: L2MarketDepth,
    FM: FeeModel,
>(
    world: ExchangeWorld<ExchangeState<AT, LM, QM, FM, RestingModel<QM::State>>, OrderRequest, UpdateModel>,
    calls: Seq<ExchangeCall>,
) -> (
    Seq<Result<bool, BacktestError>>,
    Option<ExchangeWorld<ExchangeState<AT, LM, QM, FM, RestingModel<QM::State>>, OrderRequest, UpdateModel>>,
)
    decreases calls.len(),
{
    if calls.len() == 0 {
        (Seq::empty(), Some(world))
    } else {
        let (results, before) = whole_fill_run::<AT, LM, QM, MD, FM>(world, calls.drop_last());
        match before {
            None => (results, None),
            Some(before) => {
                let (result, after) = whole_fill_after::<AT, LM, QM, MD, FM>(before, calls.last());
                (results.push(result), after)
            },
        }
    }
}

impl<
    AT: AssetType,
    LM: LatencyModel<OrderRequest, OrderUpdate>,
    QM: QueueModel<MD>,
    MD: L2MarketDepth,
    FM: FeeModel,
> NoPartialFillExchange<AT, LM, QM, MD, FM> {
    /// The exchange and the messages under way.
    pub open spec fn world(&self, link: &OrderLink<OrderRequest, OrderUpdate>) -> ExchangeWorld<
        ExchangeState<AT, LM, QM, FM, RestingModel<QM::State>>,
        OrderRequest,
        UpdateModel,
    > {
        ExchangeWorld { state: self@, to_exch: link.to_exch@, to_local: link.to_local@ }
    }

    /// Makes a call.
    pub fn replay(&mut self, link: &mut OrderLink<OrderRequest, OrderUpdate>, call: &ExchangeCall) -> (r: Result<
        bool,
        BacktestError,
    >)
        requires
            old(self).wf(),
            old(link).wf(),
            *call matches ExchangeCall::Receive(timestamp) ==> nothing_overdue(
                old(link).to_exch@,
                timestamp,
            ),
        ensures
            final(self).wf(),
            final(link).wf(),
            r == whole_fill_after::<AT, LM, QM, MD, FM>(old(self).world(old(link)), *call).0,
            whole_fill_after::<AT, LM, QM, MD, FM>(
                old(self).world(old(link)),
                *call,
            ).1 matches Some(world) ==> final(self).world(final(link)) == world,
    {
        let ghost before = self.world(link);
        assert(self.desk(link) == (Desk {
            orders: before.state.orders,
            values: before.state.values,
            latency: before.state.latency,
            to_local: before.to_local,
        }));
        match *call {
            ExchangeCall::Process(event) => {
                match self.process(link, &event) {
                    Ok(()) => Ok(false),
                    Err(error) => Err(error),
                }
            },
            ExchangeCall::Receive(timestamp) => self.process_recv_order(link, timestamp),
        }
    }
}

/// Exchanges of this kind in the same state, with the same messages under way, give the same answers
/// to the same calls and are in the same state after them.
pub proof fn equal_whole_fill_exchanges_stay_equal<
    AT: AssetType,
    LM: LatencyModel<OrderRequest, OrderUpdate>,
    QM: QueueModel<MD>,
    MD: L2MarketDepth,
    FM: FeeModel,
>(
    a: NoPartialFillExchange<AT, LM, QM, MD, FM>,
    a_link: OrderLink<OrderRequest, OrderUpdate>,
    b: NoPartialFillExchange<AT, LM, QM, MD, FM>,
    b_link: OrderLink<OrderRequest, OrderUpdate>,
    calls: Seq<ExchangeCall>,
)
    requires
        a@ == b@,
        a_link.to_exch@ == b_link.to_exch@,
        a_link.to_local@ == b_link.to_local@,
    ensures
        whole_fill_run::<AT, LM, QM, MD, FM>(a.world(&a_link), calls) == whole_fill_run::<
            AT,
            LM,
            QM,
            MD,
            FM,
        >(b.world(&b_link), calls),
{
}

/// The state of an exchange that fills orders in parts, from what it keeps besides its models, its rules and its book.
pub open spec fn partial_fill_state<AT, LM, QM: QueueModel<MD>, MD: L2MarketDepth, FM>(
    state: ExchangeState<AT, LM, QM, FM, QueuedOrder<QM::State>>,
    kept: Counter<QM::State, LM>,
) -> ExchangeState<AT, LM, QM, FM, QueuedOrder<QM::State>> {
    ExchangeState {
        orders: kept.orders,
        values: kept.values,
        latency: kept.latency,
        ..state
    }
}

/// What a call on an exchange that fills orders in parts gives and leaves. What is left is open where the call ends with an error
/// other than a refusal.
pub open spec fn partial_fill_after<
    AT: AssetType,
    LM: LatencyModel<Order, Order>,
    QM: QueueModel<MD>,
    MD: L2MarketDepth,
    FM: FeeModel,
>(
    world: ExchangeWorld<ExchangeState<AT, LM, QM, FM, QueuedOrder<QM::State>>, Order, Order>,
    call: ExchangeCall,
) -> (
    Result<bool, BacktestError>,
    Option<ExchangeWorld<ExchangeState<AT, LM, QM, FM, QueuedOrder<QM::State>>, Order, Order>>,
) {
    let state = world.state;
    let kept = Counter {
        orders: state.orders,
        values: state.values,
        latency: state.latency,
        to_local: world.to_local,
    };
    match call {
        ExchangeCall::Process(event) => match partialfillexchange::processed::<AT, LM, QM, MD, FM>(
            state.venue,
            state.book,
            kept,
            event,
        ) {
            Ok((book, after)) => (
                Ok(false),
                Some(
                    ExchangeWorld {
                        state: ExchangeState {
                            book,
                            ..partial_fill_state::<AT, LM, QM, MD, FM>(state, after)
                        },
                        to_local: after.to_local,
                        ..world
                    },
                ),
            ),
            Err(error) => (Err(error), None),
        },
        ExchangeCall::Receive(timestamp) => match partialfillexchange::all_answered::<AT, LM, QM, MD, FM>(
            state.venue,
            state.book,
            kept,
            world.to_exch,
            timestamp,
        ) {
            Ok((after, to_exch)) => (
                Ok(false),
                Some(
                    ExchangeWorld {
                        state: partial_fill_state::<AT, LM, QM, MD, FM>(state, after),
                        to_exch,
                        to_local: after.to_local,
                    },
                ),
            ),
            Err(error) => (
                Err(error),
                if error.refuses() {
                    let (after, to_exch) = partialfillexchange::at_refusal::<AT, LM, QM, MD, FM>(
                        state.venue,
                        state.book,
                        kept,
                        world.to_exch,
                        timestamp,
                    );
                    Some(
                        ExchangeWorld {
                            state: partial_fill_state::<AT, LM, QM, MD, FM>(state, after),
                            to_exch,
                            to_local: after.to_local,
                        },
                    )
                } else {
                    None
                },
            ),
        },
    }
}

/// What calls on an exchange that fills orders in parts give, one after the other, and what they leave. Behind a call that leaves
/// the state open nothing is said.
pub open spec fn partial_fill_run<
    AT: AssetType,
    LM: LatencyModel<Order, Order>,
    QM: QueueModel<MD>,
    MD: L2MarketDepth,
    FM: FeeModel,
>(
    world: ExchangeWorld<ExchangeState<AT, LM, QM, FM, QueuedOrder<QM::State>>, Order, Order>,
    calls: Seq<ExchangeCall>,
) -> (
    Seq<Result<bool, BacktestError>>,
    Option<ExchangeWorld<ExchangeState<AT, LM, QM, FM, QueuedOrder<QM::State>>, Order, Order>>,
)
    decreases calls.len(),
{
    if calls.len() == 0 {
        (Seq::empty(), Some(world))
    } else {
        let (results, before) = partial_fill_run::<AT, LM, QM, MD, FM>(world, calls.drop_last());
        match before {
            None => (results, None),
            Some(before) => {
                let (result, after) = partial_fill_after::<AT, LM, QM, MD, FM>(before, calls.last());
                (results.push(result), after)
            },
        }
    }
}

impl<
    AT: AssetType,
    LM: LatencyModel<Order, Order>,
    QM: QueueModel<MD>,
    MD: L2MarketDepth,
    FM: FeeModel,
> PartialFillExchange<AT, LM, QM, MD, FM> {
    /// The exchange and the messages under way.
    pub open spec fn world(&self, link: &OrderLink<Order, Order>) -> ExchangeWorld<
        ExchangeState<AT, LM, QM, FM, QueuedOrder<QM::State>>,
        Order,
        Order,
    > {
        ExchangeWorld { state: self@, to_exch: link.to_exch@, to_local: link.to_local@ }
    }

    /// Makes a call.
    pub fn replay(&mut self, link: &mut OrderLink<Order, Order>, call: &ExchangeCall) -> (r: Result<
        bool,
        BacktestError,
    >)
        requires
            old(self).wf(),
            old(link).wf(),
            *call matches ExchangeCall::Receive(timestamp) ==> nothing_overdue(
                old(link).to_exch@,
                timestamp,
            ),
        ensures
            final(self).wf(),
            final(link).wf(),
            r == partial_fill_after::<AT, LM, QM, MD, FM>(old(self).world(old(link)), *call).0,
            partial_fill_after::<AT, LM, QM, MD, FM>(
                old(self).world(old(link)),
                *call,
            ).1 matches Some(world) ==> final(self).world(final(link)) == world,
    {
        let ghost before = self.world(link);
        assert(self.counter(link) == (Counter {
            orders: before.state.orders,
            values: before.state.values,
            latency: before.state.latency,
            to_local: before.to_local,
        }));
        match *call {
            ExchangeCall::Process(event) => {
                match self.process(link, &event) {
                    Ok(()) => Ok(false),
                    Err(error) => Err(error),
                }
            },
            ExchangeCall::Receive(timestamp) => self.process_recv_order(link, timestamp),
        }
    }
}

/// Exchanges of this kind in the same state, with the same messages under way, give the same answers
/// to the same calls and are in the same state after them.
pub proof fn equal_partial_fill_exchanges_stay_equal<
    AT: AssetType,
    LM: LatencyModel<Order, Order>,
    QM: QueueModel<MD>,
    MD: L2MarketDepth,
    FM: FeeModel,
>(
    a: PartialFillExchange<AT, LM, QM, MD, FM>,
    a_link: OrderLink<Order, Order>,
    b: PartialFillExchange<AT, LM, QM, MD, FM>,
    b_link: OrderLink<Order, Order>,
    calls: Seq<ExchangeCall>,
)
    requires
        a@ == b@,
        a_link.to_exch@ == b_link.to_exch@,
        a_link.to_local@ == b_link.to_local@,
    ensures
        partial_fill_run::<AT, LM, QM, MD, FM>(a.world(&a_link), calls) == partial_fill_run::<
            AT,
            LM,
            QM,
            MD,
            FM,
        >(b.world(&b_link), calls),
{
}

/// A call that is made on one of the two sides of an asset.
#[derive(Clone, Copy, Debug)]
pub enum AssetCall {
    /// A call on the local side.
    Local(LocalCall),
    /// A call on the exchange.
    Exchange(ExchangeCall),
}

/// The two sides of an asset and the messages under way between them.
pub struct AssetWorld<AT, LM, QM, FM, S> {
    /// The state of the local side.
    pub local: LocalState<AT, LM, FM>,
    /// The state of the exchange.
    pub exch: ExchangeState<AT, LM, QM, FM, RestingModel<S>>,
    /// The requests under way.
    pub to_exch: Seq<(OrderRequest, i64)>,
    /// The updates under way.
    pub to_local: Seq<(UpdateModel, i64)>,
}

/// What a call on one of the two sides gives and leaves.
pub open spec fn asset_after<
    AT: AssetType,
    LM: LatencyModel<OrderRequest, OrderUpdate>,
    QM: QueueModel<MD>,
    MD: L2MarketDepth,
    FM: FeeModel,
>(world: AssetWorld<AT, LM, QM, FM, QM::State>, call: AssetCall) -> (
    Result<bool, BacktestError>,
    Option<AssetWorld<AT, LM, QM, FM, QM::State>>,
) {
    match call {
        AssetCall::Local(call) => {
            let (result, after) = local_after(
                LocalWorld {
                    state: world.local,
                    to_exch: world.to_exch,
                    to_local: world.to_local,
                },
                call,
            );
            (
                result,
                match after {
                    None => None,
                    Some(after) => Some(
                        AssetWorld {
                            local: after.state,
                            to_exch: after.to_exch,
                            to_local: after.to_local,
                            ..world
                        },
                    ),
                },
            )
        },
        AssetCall::Exchange(call) => {
            let (result, after) = whole_fill_after::<AT, LM, QM, MD, FM>(
                ExchangeWorld {
                    state: world.exch,
                    to_exch: world.to_exch,
                    to_local: world.to_local,
                },
                call,
            );
            (
                result,
                match after {
                    None => None,
                    Some(after) => Some(
                        AssetWorld {
                            exch: after.state,
                            to_exch: after.to_exch,
                            to_local: after.to_local,
                            ..world
                        },
                    ),
                },
            )
        },
    }
}

/// What calls on the two sides give, one after the other, and what they leave. Behind a call that
/// leaves the state open nothing is said.
pub open spec fn asset_run<
    AT: AssetType,
    LM: LatencyModel<OrderRequest, OrderUpdate>,
    QM: QueueModel<MD>,
    MD: L2MarketDepth,
    FM: FeeModel,
>(world: AssetWorld<AT, LM, QM, FM, QM::State>, calls: Seq<AssetCall>) -> (
    Seq<Result<bool, BacktestError>>,
    Option<AssetWorld<AT, LM, QM, FM, QM::State>>,
)
    decreases calls.len(),
{
    if calls.len() == 0 {
        (Seq::empty(), Some(world))
    } else {
        let (results, before) = asset_run::<AT, LM, QM, MD, FM>(world, calls.drop_last());
        match before {
            None => (results, None),
            Some(before) => {
                let (result, after) = asset_after::<AT, LM, QM, MD, FM>(before, calls.last());
                (results.push(result), after)
            },
        }
    }
}

/// The two sides of an asset of a backtest.
pub open spec fn asset_world<
    AT: AssetType,
    LM: LatencyModel<OrderRequest, OrderUpdate>,
    QM: QueueModel<MD>,
    MD: L2MarketDepth,
    FM: FeeModel,
    F,
>(
    backtest: Backtest<
        Local<AT, LM, MD, FM>,
        NoPartialFillExchange<AT, LM, QM, MD, FM>,
        OrderRequest,
        OrderUpdate,
        F,
    >,
    asset: int,
) -> AssetWorld<AT, LM, QM, FM, QM::State> {
    AssetWorld {
        local: backtest.local@[asset].processor@,
        exch: backtest.exch@[asset].processor@,
        to_exch: backtest.links@[asset].to_exch@,
        to_local: backtest.links@[asset].to_local@,
    }
}

/// Backtests in the same state, such as a backtest and its branches, give the same answers to the
/// same calls on both sides of an asset, and the asset is in the same state after them.
pub proof fn equal_backtests_stay_equal<
    AT: AssetType + SnapshotState,
    LM: LatencyModel<OrderRequest, OrderUpdate> + SnapshotState,
    QM: QueueModel<MD> + SnapshotState,
    MD: L2MarketDepth + SnapshotDepth,
    FM: FeeModel + SnapshotState,
    F: Preprocessor<Event>,
>(
    a: Backtest<
        Local<AT, LM, MD, FM>,
        NoPartialFillExchange<AT, LM, QM, MD, FM>,
        OrderRequest,
        OrderUpdate,
        F,
    >,
    b: Backtest<
        Local<AT, LM, MD, FM>,
        NoPartialFillExchange<AT, LM, QM, MD, FM>,
        OrderRequest,
        OrderUpdate,
        F,
    >,
    asset: int,
    calls: Seq<AssetCall>,
)
    requires
        a.same_state(&b),
        0 <= asset < a.local@.len(),
        asset < a.exch@.len(),
        asset < a.links@.len(),
    ensures
        asset_run::<AT, LM, QM, MD, FM>(asset_world(a, asset), calls) == asset_run::<
            AT,
            LM,
            QM,
            MD,
            FM,
        >(asset_world(b, asset), calls),
{
    assert(a.local@[asset].same_replay(&b.local@[asset]));
    assert(a.exch@[asset].same_replay(&b.exch@[asset]));
    assert(a.links@[asset].to_exch@ == b.links@[asset].to_exch@);
}

/// A branch that is forked and one that is restored from a checkpoint of the same state are in the
/// same state.
pub proof fn forking_and_restoring_agree<
    L: SnapshotProcessor,
    E: SnapshotProcessor,
    Q: Message,
    R: Message,
    F: Preprocessor<Event>,
>(
    source: Backtest<L, E, Q, R, F>,
    forked: Backtest<L, E, Q, R, F>,
    saved: Backtest<L, E, Q, R, F>,
    restored: Backtest<L, E, Q, R, F>,
)
    requires
        source.same_state(&forked),
        source.same_state(&saved),
        saved.same_state(&restored),
    ensures
        forked.same_state(&restored),
{
    restoring_gives_the_saved_state(source, source, forked, saved);
    restoring_gives_the_saved_state(forked, saved, restored, restored);
}

} // verus!
