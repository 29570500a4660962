//! The exchange model with partial fills.
use vstd::prelude::*;

use crate::assettype::AssetType;
use crate::decimal::Decimal;
use crate::depth::Book;
use crate::depth::DepthUpdate;
use crate::depth::DepthVisitor;
use crate::depth::L2MarketDepth;
use crate::depth::MarketDepth;
use crate::depth::ask_update;
use crate::depth::bid_update;
use crate::depth::walked;
use crate::error::BacktestError;
use crate::lifecycle::OrderFill;
use crate::models::fee::FeeModel;
use crate::models::latency::LatencyModel;
use crate::models::queue::OrderTerms;
use crate::models::queue::QueueModel;
use crate::order_bus::ExchToLocal;
use crate::order_bus::OrderLink;
use crate::order_bus::delivered;
use crate::order_bus::is_due;
use crate::order_bus::nothing_overdue;
use crate::processor::price_match::PriceInstruction;
use crate::processor::price_match::crosses_book;
use crate::processor::price_match::is_crossing;
use crate::processor::price_match::price_satisfies_rule;
use crate::processor::price_match::resolve_price_match;
use crate::processor::price_match::resolved_price;
use crate::processor::price_match::rule_satisfied;
use crate::processor::venue::Trigger;
use crate::processor::venue::Venue;
use crate::processor::venue::best_opposite;
use crate::processor::venue::improved;
use crate::processor::venue::is_improved;
use crate::rules::TickSizeSchedule;
use crate::sorted_map::Ranked;
use crate::sorted_map::SortedMap;
use crate::sorted_map::below;
use crate::sorted_map::holds;
use crate::sorted_map::inserted;
use crate::sorted_map::lemma_below_grows;
use crate::sorted_map::lemma_below_splits;
use crate::sorted_map::lemma_inserted;
use crate::sorted_map::lemma_removed;
use crate::sorted_map::lookup;
use crate::sorted_map::ordered;
use crate::sorted_map::removed;
use crate::state::State;
use crate::state::filled_values;
use crate::types::EXCH_ASK_DEPTH_CLEAR_EVENT;
use crate::types::EXCH_ASK_DEPTH_EVENT;
use crate::types::EXCH_ASK_DEPTH_SNAPSHOT_EVENT;
use crate::types::EXCH_BID_DEPTH_CLEAR_EVENT;
use crate::types::EXCH_BID_DEPTH_EVENT;
use crate::types::EXCH_BID_DEPTH_SNAPSHOT_EVENT;
use crate::types::EXCH_BUY_TRADE_EVENT;
use crate::types::EXCH_DEPTH_CLEAR_EVENT;
use crate::types::EXCH_EVENT;
use crate::types::EXCH_SELL_TRADE_EVENT;
use crate::types::Event;
use crate::types::OrdType;
use crate::types::Order;
use crate::types::OrderId;
use crate::types::PriceMatch;
use crate::types::Side;
use crate::types::StateValues;
use crate::types::Status;
use crate::types::TimeInForce;
use crate::types::flag_is;

verus! {

/// An order in the book, with its place in the queue.
#[derive(Clone, Copy, Debug)]
pub struct QueuedOrder<S> {
    /// The order.
    pub order: Order,
    /// Its place in the queue.
    pub queue_state: S,
}

/// What a queue model knows of an order.
pub open spec fn terms_of(order: Order) -> OrderTerms {
    OrderTerms { order_id: order.order_id, side: order.side, price: order.price }
}

/// What a queue model knows of an order.
fn terms(order: &Order) -> (r: OrderTerms)
    ensures
        r == terms_of(*order),
{
    OrderTerms { order_id: order.order_id, side: order.side, price: order.price }
}

/// What an exchange keeps besides the book: the orders in the book, what was traded, the latency
/// model and the responses under way.
#[verifier::ext_equal]
pub struct Counter<S, LM> {
    /// The orders in the book, by their identifiers.
    pub orders: Seq<(OrderId, QueuedOrder<S>)>,
    /// What was traded.
    pub values: StateValues,
    /// The latency model.
    pub latency: LM,
    /// The responses under way.
    pub to_local: Seq<(Order, i64)>,
}

/// Whether the orders in the book are in order: each once, under its own identifier, and active.
pub open spec fn orders_ok<S>(orders: Seq<(OrderId, QueuedOrder<S>)>) -> bool {
    &&& ordered(orders)
    &&& forall|i: int|
        0 <= i < orders.len() ==> (#[trigger] orders[i]).1.order.order_id == orders[i].0
            && orders[i].1.order.is_active()
}

/// Whether an order came to its end.
pub open spec fn ended(status: Status) -> bool {
    status == Status::Expired || status == Status::Canceled || status == Status::Filled
}

/// The number of price levels that an order took after a fill.
pub open spec fn levels_taken(order: Order, maker: bool) -> Option<u32> {
    if maker {
        Some(order.taker_price_level_count)
    } else if order.taker_price_level_count == u32::MAX {
        None
    } else {
        Some((order.taker_price_level_count + 1) as u32)
    }
}

/// The value that an order traded after a fill.
pub open spec fn value_traded(order: Order, price: Decimal, qty: Decimal) -> Option<Decimal> {
    match qty.product(price) {
        None => None,
        Some(value) => order.cum_exec_value.sum(value),
    }
}

/// The fill of a quantity of an order. A maker trades at the price of the order.
pub open spec fn fill_of(
    order: Order,
    timestamp: i64,
    maker: bool,
    exec_price: Decimal,
    exec_qty: Decimal,
) -> OrderFill {
    OrderFill {
        price: if maker {
            order.price
        } else {
            exec_price
        },
        qty: exec_qty,
        exch_timestamp: timestamp,
        is_maker: maker,
    }
}

/// What filling a quantity of an order does: the order, and what was traded.
pub open spec fn order_filled<AT: AssetType, FM: FeeModel, QM>(
    venue: Venue<AT, FM, QM>,
    values: StateValues,
    order: Order,
    timestamp: i64,
    maker: bool,
    exec_price: Decimal,
    exec_qty: Decimal,
) -> Result<(Order, StateValues), BacktestError> {
    let fill = fill_of(order, timestamp, maker, exec_price, exec_qty);
    if ended(order.status) {
        Err(BacktestError::InvalidOrderStatus)
    } else {
        match (
            order.cum_exec_qty.sum(exec_qty),
            value_traded(order, fill.price, exec_qty),
            levels_taken(order, maker),
            order.leaves_qty.difference(exec_qty),
            filled_values(values, venue.asset_type, venue.fee_model, order.side, fill),
        ) {
            (
                Some(cum_exec_qty),
                Some(cum_exec_value),
                Some(taker_price_level_count),
                Some(leaves_qty),
                Some(values),
            ) => Ok(
                (
                    Order {
                        maker,
                        exec_price: fill.price,
                        exec_qty,
                        cum_exec_qty,
                        cum_exec_value,
                        taker_price_level_count,
                        leaves_qty,
                        status: if leaves_qty@ > 0 {
                            Status::PartiallyFilled
                        } else {
                            Status::Filled
                        },
                        exch_timestamp: timestamp,
                        ..order
                    },
                    values,
                ),
            ),
            _ => Err(BacktestError::Overflow),
        }
    }
}

/// What filling a quantity of an order in the book and reporting it does: the order, and the rest
/// but for the orders.
pub open spec fn maker_filled<
    AT: AssetType,
    LM: LatencyModel<Order, Order>,
    QM,
    FM: FeeModel,
    S,
>(
    venue: Venue<AT, FM, QM>,
    counter: Counter<S, LM>,
    order: Order,
    timestamp: i64,
    exec_qty: Decimal,
) -> Result<(Order, Counter<S, LM>), BacktestError> {
    match order_filled(venue, counter.values, order, timestamp, true, order.price, exec_qty) {
        Err(error) => Err(error),
        Ok((after, values)) => match delivered::<Order, Order, LM>(
            counter.latency,
            counter.to_local,
            after,
            timestamp,
        ) {
            Err(error) => Err(error),
            Ok((latency, to_local)) => Ok(
                (after, Counter { values, latency, to_local, ..counter }),
            ),
        },
    }
}

/// What becomes of an order in the book.
pub enum Action<S> {
    /// It stays.
    Keep,
    /// It moves in the queue.
    Requeue(S),
    /// It is filled up to a quantity, at a place in the queue.
    Fill(Decimal, S),
    /// All of it is filled.
    FillAll,
}

/// What becomes of an order at whose price a trade takes place: it moves in the queue, and is filled
/// by what the trade leaves for it.
pub open spec fn queue_action<QM: QueueModel<MD>, MD: MarketDepth>(
    queue_model: QM,
    book: Book,
    queued: QueuedOrder<QM::State>,
    qty: Decimal,
) -> Option<Action<QM::State>> {
    match queue_model.after_trade(terms_of(queued.order), queued.queue_state, qty, book) {
        None => None,
        Some(after) => if after.1@ > 0 {
            Some(Action::Fill(after.1.smaller(queued.order.leaves_qty), after.0))
        } else {
            Some(Action::Requeue(after.0))
        },
    }
}

/// What becomes of an order in the book when something happens in the market.
pub open spec fn action_of<QM: QueueModel<MD>, MD: MarketDepth>(
    queue_model: QM,
    book: Book,
    trigger: Trigger,
    queued: QueuedOrder<QM::State>,
) -> Option<Action<QM::State>> {
    let order = queued.order;
    match trigger {
        Trigger::BestBid(best) => if order.side == Side::Sell && order.price@ <= best@ {
            Some(Action::FillAll)
        } else {
            Some(Action::Keep)
        },
        Trigger::BestAsk(best) => if order.side == Side::Buy && order.price@ >= best@ {
            Some(Action::FillAll)
        } else {
            Some(Action::Keep)
        },
        Trigger::BuyTrade(price, qty) => if order.side != Side::Sell || order.price@ > price@ {
            Some(Action::Keep)
        } else if order.price@ < price@ {
            Some(Action::FillAll)
        } else {
            queue_action::<QM, MD>(queue_model, book, queued, qty)
        },
        Trigger::SellTrade(price, qty) => if order.side != Side::Buy || order.price@ < price@ {
            Some(Action::Keep)
        } else if order.price@ > price@ {
            Some(Action::FillAll)
        } else {
            queue_action::<QM, MD>(queue_model, book, queued, qty)
        },
    }
}

/// What an order in the book leaves after what happened to it.
pub open spec fn acted_on<
    AT: AssetType,
    LM: LatencyModel<Order, Order>,
    QM: QueueModel<MD>,
    MD: MarketDepth,
    FM: FeeModel,
>(
    venue: Venue<AT, FM, QM>,
    counter: Counter<QM::State, LM>,
    id: OrderId,
    queued: QueuedOrder<QM::State>,
    action: Option<Action<QM::State>>,
    timestamp: i64,
) -> Result<Counter<QM::State, LM>, BacktestError> {
    match action {
        None => Err(BacktestError::Overflow),
        Some(Action::Keep) => Ok(Counter { orders: counter.orders.push((id, queued)), ..counter }),
        Some(Action::Requeue(queue_state)) => Ok(
            Counter {
                orders: counter.orders.push((id, QueuedOrder { queue_state, ..queued })),
                ..counter
            },
        ),
        Some(Action::Fill(qty, queue_state)) => match maker_filled(
            venue,
            counter,
            queued.order,
            timestamp,
            qty,
        ) {
            Err(error) => Err(error),
            Ok((order, after)) => if order.status == Status::Filled {
                Ok(after)
            } else {
                Ok(
                    Counter {
                        orders: after.orders.push((id, QueuedOrder { order, queue_state })),
                        ..after
                    },
                )
            },
        },
        Some(Action::FillAll) => match maker_filled(
            venue,
            counter,
            queued.order,
            timestamp,
            queued.order.leaves_qty,
        ) {
            Err(error) => Err(error),
            Ok((_, after)) => Ok(after),
        },
    }
}

/// What happens in the market to the first of the orders, one after the other: those that stay, and
/// what filling the others leaves.
pub open spec fn swept<
    AT: AssetType,
    LM: LatencyModel<Order, Order>,
    QM: QueueModel<MD>,
    MD: MarketDepth,
    FM: FeeModel,
>(
    venue: Venue<AT, FM, QM>,
    book: Book,
    trigger: Trigger,
    timestamp: i64,
    orders: Seq<(OrderId, QueuedOrder<QM::State>)>,
    counter: Counter<QM::State, LM>,
) -> Result<Counter<QM::State, LM>, BacktestError>
    decreases orders.len(),
{
    if orders.len() == 0 {
        Ok(Counter { orders: Seq::empty(), ..counter })
    } else {
        match swept::<AT, LM, QM, MD, FM>(
            venue,
            book,
            trigger,
            timestamp,
            orders.drop_last(),
            counter,
        ) {
            Err(error) => Err(error),
            Ok(before) => acted_on::<AT, LM, QM, MD, FM>(
                venue,
                before,
                orders.last().0,
                orders.last().1,
                action_of::<QM, MD>(venue.queue_model, book, trigger, orders.last().1),
                timestamp,
            ),
        }
    }
}

/// A change of the depth at a price moves the orders of a side there in the queue.
pub open spec fn requeued<QM: QueueModel<MD>, MD: MarketDepth>(
    queue_model: QM,
    book: Book,
    side: Side,
    price: Decimal,
    prev_qty: Decimal,
    new_qty: Decimal,
    orders: Seq<(OrderId, QueuedOrder<QM::State>)>,
) -> Option<Seq<(OrderId, QueuedOrder<QM::State>)>>
    decreases orders.len(),
{
    if orders.len() == 0 {
        Some(Seq::empty())
    } else {
        match requeued::<QM, MD>(
            queue_model,
            book,
            side,
            price,
            prev_qty,
            new_qty,
            orders.drop_last(),
        ) {
            None => None,
            Some(before) => {
                let (id, queued) = orders.last();
                if queued.order.side == side && queued.order.price@ == price@ {
                    match queue_model.after_depth(
                        terms_of(queued.order),
                        queued.queue_state,
                        prev_qty,
                        new_qty,
                        book,
                    ) {
                        None => None,
                        Some(queue_state) => Some(
                            before.push((id, QueuedOrder { queue_state, ..queued })),
                        ),
                    }
                } else {
                    Some(before.push((id, queued)))
                }
            },
        }
    }
}

/// The exchange model with partial fills.
///
/// Supported are limit orders and market orders, and every time in force.
///
/// **Conditions for Full Execution**
///
/// Buy order in the order book
///
/// - Your order price >= the best ask price
/// - Your order price > sell trade price
///
/// Sell order in the order book
///
/// - Your order price <= the best bid price
/// - Your order price < buy trade price
///
/// **Conditions for Partial Execution**
///
/// Buy order in the order book
///
/// - Filled by (remaining) sell trade quantity: your order is at the front of the queue && your
///   order price == sell trade price
///
/// Sell order in the order book
///
/// - Filled by (remaining) buy trade quantity: your order is at the front of the queue && your
///   order price == buy trade price
///
/// **Liquidity-Taking Order**
///
/// Liquidity-taking orders will be executed based on the quantity of the order book, even though
/// the best price and quantity do not change due to your execution. Be aware that this may cause
/// unrealistic fill simulations if you attempt to execute a large quantity.
///
/// **General Comment**
///
/// Simulating partial fills accurately can be challenging, as they may indicate potential market
/// impact. The rule of thumb is to ensure that your backtesting results align with your live
/// results.
#[derive(Debug)]
pub struct PartialFillExchange<AT, LM, QM: QueueModel<MD>, MD: MarketDepth, FM> {
    /// The orders in the book.
    pub orders: SortedMap<OrderId, QueuedOrder<QM::State>>,
    /// The way to the local side.
    pub order_e2l: ExchToLocal<LM>,
    /// The book.
    pub depth: MD,
    /// What was traded.
    pub state: State<AT, FM>,
    /// The queue model.
    pub queue_model: QM,
    /// The tick sizes.
    pub tick_sizes: TickSizeSchedule,
    /// Whether snapshots may be taken.
    pub snapshot_enabled: bool,
}

impl<
    AT: AssetType,
    LM: LatencyModel<Order, Order>,
    QM: QueueModel<MD>,
    MD: MarketDepth,
    FM: FeeModel,
> PartialFillExchange<AT, LM, QM, MD, FM> {
    /// The models and rules of the exchange.
    pub open spec fn venue(&self) -> Venue<AT, FM, QM> {
        Venue {
            asset_type: self.state.asset_type,
            fee_model: self.state.fee_model,
            queue_model: self.queue_model,
            changes: self.tick_sizes@,
        }
    }

    /// What the exchange keeps besides the book.
    pub open spec fn counter(&self, link: &OrderLink<Order, Order>) -> Counter<QM::State, LM> {
        Counter {
            orders: self.orders@,
            values: self.state.state_values,
            latency: self.order_e2l.order_latency,
            to_local: link.to_local@,
        }
    }

    /// Whether the exchange is in order.
    pub open spec fn wf(&self) -> bool {
        &&& self.orders.wf()
        &&& orders_ok(self.orders@)
        &&& self.depth.wf()
        &&& self.tick_sizes.wf()
    }

    /// Whether the models, the rules and the book are the same.
    pub open spec fn same_market(&self, before: &Self) -> bool {
        self.venue() == before.venue() && self.depth == before.depth
            && self.snapshot_enabled == before.snapshot_enabled
    }

    /// Constructs an instance of `PartialFillExchange`.
    pub fn new(
        depth: MD,
        state: State<AT, FM>,
        queue_model: QM,
        order_e2l: ExchToLocal<LM>,
        tick_sizes: TickSizeSchedule,
    ) -> (r: Self)
        requires
            depth.wf(),
            tick_sizes.wf(),
        ensures
            r.wf(),
            r.orders@.len() == 0,
            r.depth == depth,
            r.state == state,
            r.queue_model == queue_model,
            r.order_e2l == order_e2l,
            r.tick_sizes@ == tick_sizes@,
            !r.snapshot_enabled,
    {
        PartialFillExchange {
            orders: SortedMap::new(),
            order_e2l,
            depth,
            state,
            queue_model,
            tick_sizes,
            snapshot_enabled: false,
        }
    }

    /// Fills a quantity of an order.
    fn fill(
        &mut self,
        order: &mut Order,
        timestamp: i64,
        maker: bool,
        exec_price: Decimal,
        exec_qty: Decimal,
    ) -> (r: Result<(), BacktestError>)
        ensures
            final(self).same_market(old(self)),
            final(self).orders == old(self).orders,
            final(self).order_e2l == old(self).order_e2l,
            match order_filled(
                old(self).venue(),
                old(self).state.state_values,
                *old(order),
                timestamp,
                maker,
                exec_price,
                exec_qty,
            ) {
                Ok(after) => r is Ok && *final(order) == after.0 && final(self).state.state_values
                    == after.1,
                Err(error) => r == Err::<(), BacktestError>(error),
            },
    {
        if order.status == Status::Expired || order.status == Status::Canceled || order.status
            == Status::Filled {
            return Err(BacktestError::InvalidOrderStatus);
        }
        order.maker = maker;
        if maker {
            order.exec_price = order.price;
        } else {
            order.exec_price = exec_price;
        }
        order.exec_qty = exec_qty;
        match order.cum_exec_qty.checked_add(exec_qty) {
            Some(qty) => {
                order.cum_exec_qty = qty;
            },
            None => {
                return Err(BacktestError::Overflow);
            },
        }
        match exec_qty.checked_mul(order.exec_price) {
            Some(value) => match order.cum_exec_value.checked_add(value) {
                Some(value) => {
                    order.cum_exec_value = value;
                },
                None => {
                    return Err(BacktestError::Overflow);
                },
            },
            None => {
                return Err(BacktestError::Overflow);
            },
        }
        if !maker {
            match order.taker_price_level_count.checked_add(1) {
                Some(count) => {
                    order.taker_price_level_count = count;
                },
                None => {
                    return Err(BacktestError::Overflow);
                },
            }
        }
        match order.leaves_qty.checked_sub(exec_qty) {
            Some(qty) => {
                order.leaves_qty = qty;
            },
            None => {
                return Err(BacktestError::Overflow);
            },
        }
        if order.leaves_qty.is_positive() {
            order.status = Status::PartiallyFilled;
        } else {
            order.status = Status::Filled;
        }
        order.exch_timestamp = timestamp;
        let fill: OrderFill = OrderFill {
            price: order.exec_price,
            qty: exec_qty,
            exch_timestamp: timestamp,
            is_maker: maker,
        };
        self.state.apply_fill(order.side, &fill)
    }

    /// Fills a quantity of an order in the book and reports it.
    fn fill_maker(
        &mut self,
        link: &mut OrderLink<Order, Order>,
        order: &mut Order,
        timestamp: i64,
        exec_qty: Decimal,
    ) -> (r: Result<(), BacktestError>)
        requires
            old(link).wf(),
        ensures
            final(link).wf(),
            final(link).to_exch@ == old(link).to_exch@,
            final(self).same_market(old(self)),
            final(self).orders == old(self).orders,
            match maker_filled(
                old(self).venue(),
                old(self).counter(old(link)),
                *old(order),
                timestamp,
                exec_qty,
            ) {
                Ok(after) => r is Ok && *final(order) == after.0 && final(self).counter(final(link))
                    == after.1,
                Err(error) => r == Err::<(), BacktestError>(error),
            },
    {
        let price: Decimal = order.price;
        match self.fill(order, timestamp, true, price, exec_qty) {
            Ok(()) => {},
            Err(error) => {
                return Err(error);
            },
        }
        self.order_e2l.deliver(link, *order, timestamp)
    }

    /// What becomes of an order at whose price a trade takes place.
    fn queue_action(&self, queued: &QueuedOrder<QM::State>, qty: Decimal) -> (r: Option<
        Action<QM::State>,
    >)
        requires
            self.depth.wf(),
        ensures
            r == queue_action::<QM, MD>(self.queue_model, self.depth.book(), *queued, qty),
    {
        let (queue_state, exec): (QM::State, Decimal) = self.queue_model.trade(
            &terms(&queued.order),
            queued.queue_state,
            qty,
            &self.depth,
        )?;
        if exec.is_positive() {
            Some(Action::Fill(exec.min(queued.order.leaves_qty), queue_state))
        } else {
            Some(Action::Requeue(queue_state))
        }
    }

    /// What becomes of a sell order in the book when a buyer trades.
    fn check_if_sell_filled(
        &self,
        queued: &QueuedOrder<QM::State>,
        price: Decimal,
        qty: Decimal,
    ) -> (r: Option<Action<QM::State>>)
        requires
            self.depth.wf(),
        ensures
            r == action_of::<QM, MD>(
                self.queue_model,
                self.depth.book(),
                Trigger::BuyTrade(price, qty),
                *queued,
            ),
    {
        if queued.order.side != Side::Sell || price.lt(queued.order.price) {
            Some(Action::Keep)
        } else if queued.order.price.lt(price) {
            Some(Action::FillAll)
        } else {
            self.queue_action(queued, qty)
        }
    }

    /// What becomes of a buy order in the book when a seller trades.
    fn check_if_buy_filled(
        &self,
        queued: &QueuedOrder<QM::State>,
        price: Decimal,
        qty: Decimal,
    ) -> (r: Option<Action<QM::State>>)
        requires
            self.depth.wf(),
        ensures
            r == action_of::<QM, MD>(
                self.queue_model,
                self.depth.book(),
                Trigger::SellTrade(price, qty),
                *queued,
            ),
    {
        if queued.order.side != Side::Buy || queued.order.price.lt(price) {
            Some(Action::Keep)
        } else if price.lt(queued.order.price) {
            Some(Action::FillAll)
        } else {
            self.queue_action(queued, qty)
        }
    }

    /// What becomes of an order in the book when something happens in the market.
    fn action(&self, trigger: Trigger, queued: &QueuedOrder<QM::State>) -> (r: Option<
        Action<QM::State>,
    >)
        requires
            self.depth.wf(),
        ensures
            r == action_of::<QM, MD>(self.queue_model, self.depth.book(), trigger, *queued),
    {
        match trigger {
            Trigger::BestBid(best) => if queued.order.side == Side::Sell && queued.order.price.le(
                best,
            ) {
                Some(Action::FillAll)
            } else {
                Some(Action::Keep)
            },
            Trigger::BestAsk(best) => if queued.order.side == Side::Buy && best.le(
                queued.order.price,
            ) {
                Some(Action::FillAll)
            } else {
                Some(Action::Keep)
            },
            Trigger::BuyTrade(price, qty) => self.check_if_sell_filled(queued, price, qty),
            Trigger::SellTrade(price, qty) => self.check_if_buy_filled(queued, price, qty),
        }
    }

    /// Applies what happens in the market to the orders in the book, one after the other.
    fn sweep(&mut self, link: &mut OrderLink<Order, Order>, trigger: Trigger, timestamp: i64) -> (r:
        Result<(), BacktestError>)
        requires
            old(self).wf(),
            old(link).wf(),
        ensures
            final(self).wf(),
            final(link).wf(),
            final(link).to_exch@ == old(link).to_exch@,
            final(self).same_market(old(self)),
            match swept::<AT, LM, QM, MD, FM>(
                old(self).venue(),
                old(self).depth.book(),
                trigger,
                timestamp,
                old(self).orders@,
                old(self).counter(old(link)),
            ) {
                Ok(after) => r is Ok && final(self).counter(final(link)) == after,
                Err(error) => r == Err::<(), BacktestError>(error),
            },
    {
        let ghost venue = self.venue();
        let ghost book = self.depth.book();
        let ghost start = self.counter(link);
        let ghost all = start.orders;
        let ghost mut k: int = 0;
        let mut i: usize = 0;
        assert(all.take(0) =~= Seq::empty());
        assert(all.skip(0) =~= all);
        while i < self.orders.entries.len()
            invariant
                self.wf(),
                link.wf(),
                link.to_exch@ == old(link).to_exch@,
                self.same_market(old(self)),
                venue == old(self).venue(),
                book == old(self).depth.book(),
                start == old(self).counter(old(link)),
                all == start.orders,
                0 <= k <= all.len(),
                ({
                    let done = swept::<AT, LM, QM, MD, FM>(
                        venue,
                        book,
                        trigger,
                        timestamp,
                        all.take(k),
                        start,
                    );
                    &&& done is Ok
                    &&& self.orders@ =~= done->Ok_0.orders + all.skip(k)
                    &&& self.counter(link).values == done->Ok_0.values
                    &&& self.counter(link).latency == done->Ok_0.latency
                    &&& self.counter(link).to_local == done->Ok_0.to_local
                    &&& i == done->Ok_0.orders.len()
                }),
            decreases all.len() - k,
        {
            let ghost before = self.counter(link);
            let ghost done = swept::<AT, LM, QM, MD, FM>(
                venue,
                book,
                trigger,
                timestamp,
                all.take(k),
                start,
            )->Ok_0;
            proof {
                assert(before.orders[i as int] == all[k]);
                assert(all.take(k + 1).drop_last() =~= all.take(k));
                assert(all.take(k + 1).last() == all[k]);
                lemma_swept_fault::<AT, LM, QM, MD, FM>(
                    venue,
                    book,
                    trigger,
                    timestamp,
                    all,
                    k + 1,
                    start,
                );
            }
            match self.action(trigger, &self.orders.entries[i].1) {
                None => {
                    return Err(BacktestError::Overflow);
                },
                Some(Action::Keep) => {
                    proof {
                        k = k + 1;
                    }
                    i = i + 1;
                    assert(self.orders@ =~= done.orders.push(all[k - 1]) + all.skip(k));
                },
                Some(Action::Requeue(queue_state)) => {
                    self.orders.entries[i].1.queue_state = queue_state;
                    proof {
                        k = k + 1;
                        let queued = QueuedOrder { queue_state, ..all[k - 1].1 };
                        assert(self.orders@ =~= before.orders.update(
                            i as int,
                            (before.orders[i as int].0, queued),
                        ));
                        lemma_orders_updated(before.orders, i as int, queued);
                        assert(self.orders@ =~= done.orders.push((all[k - 1].0, queued)) + all.skip(
                            k,
                        ));
                    }
                    i = i + 1;
                },
                Some(Action::Fill(qty, queue_state)) => {
                    let mut order: Order = self.orders.entries[i].1.order;
                    proof {
                        k = k + 1;
                        lemma_maker_filled_orders(
                            venue,
                            done,
                            self.counter(link),
                            order,
                            timestamp,
                            qty,
                        );
                    }
                    match self.fill_maker(link, &mut order, timestamp, qty) {
                        Ok(()) => {},
                        Err(error) => {
                            return Err(error);
                        },
                    }
                    if order.status == Status::Filled {
                        let _ = self.orders.entries.remove(i);
                        proof {
                            assert(self.orders@ =~= before.orders.remove(i as int));
                            lemma_orders_removed(before.orders, i as int);
                            assert(before.orders.remove(i as int) =~= done.orders + all.skip(k));
                        }
                    } else {
                        self.orders.entries[i].1.order = order;
                        self.orders.entries[i].1.queue_state = queue_state;
                        proof {
                            let queued = QueuedOrder { order, queue_state };
                            assert(self.orders@ =~= before.orders.update(
                                i as int,
                                (before.orders[i as int].0, queued),
                            ));
                            lemma_orders_updated(before.orders, i as int, queued);
                            assert(self.orders@ =~= done.orders.push((all[k - 1].0, queued))
                                + all.skip(k));
                        }
                        i = i + 1;
                    }
                },
                Some(Action::FillAll) => {
                    let (_, queued): (OrderId, QueuedOrder<QM::State>) = self.orders.entries.remove(
                        i,
                    );
                    let mut order: Order = queued.order;
                    let leaves_qty: Decimal = order.leaves_qty;
                    proof {
                        k = k + 1;
                        assert(self.orders@ =~= before.orders.remove(i as int));
                        lemma_orders_removed(before.orders, i as int);
                        assert(before.orders.remove(i as int) =~= done.orders + all.skip(k));
                        lemma_maker_filled_orders(
                            venue,
                            done,
                            self.counter(link),
                            order,
                            timestamp,
                            leaves_qty,
                        );
                    }
                    match self.fill_maker(link, &mut order, timestamp, leaves_qty) {
                        Ok(()) => {},
                        Err(error) => {
                            return Err(error);
                        },
                    }
                },
            }
        }
        assert(all.take(k) =~= all) by {
            assert(all.skip(k).len() == 0);
        }
        assert(all.skip(k) =~= Seq::empty());
        Ok(())
    }

    /// Moves the orders of a side at a price in the queue, after the depth there changed.
    fn on_qty_chg(&mut self, side: Side, price: Decimal, prev_qty: Decimal, new_qty: Decimal) -> (r:
        Result<(), BacktestError>)
        requires
            old(self).wf(),
        ensures
            final(self).wf(),
            final(self).same_market(old(self)),
            final(self).state == old(self).state,
            final(self).order_e2l == old(self).order_e2l,
            match requeued::<QM, MD>(
                old(self).queue_model,
                old(self).depth.book(),
                side,
                price,
                prev_qty,
                new_qty,
                old(self).orders@,
            ) {
                Some(orders) => r is Ok && final(self).orders@ == orders,
                None => r == Err::<(), BacktestError>(BacktestError::Overflow),
            },
    {
        let ghost queue_model = self.queue_model;
        let ghost book = self.depth.book();
        let ghost all = self.orders@;
        let mut i: usize = 0;
        assert(all.take(0) =~= Seq::empty());
        assert(all.skip(0) =~= all);
        while i < self.orders.entries.len()
            invariant
                self.wf(),
                self.same_market(old(self)),
                self.state == old(self).state,
                self.order_e2l == old(self).order_e2l,
                queue_model == old(self).queue_model,
                book == old(self).depth.book(),
                all == old(self).orders@,
                i <= all.len(),
                self.orders@.len() == all.len(),
                ({
                    let done = requeued::<QM, MD>(
                        queue_model,
                        book,
                        side,
                        price,
                        prev_qty,
                        new_qty,
                        all.take(i as int),
                    );
                    &&& done is Some
                    &&& done->0.len() == i
                    &&& self.orders@ =~= done->0 + all.skip(i as int)
                }),
            decreases self.orders@.len() - i,
        {
            let ghost before = self.orders@;
            let ghost done = requeued::<QM, MD>(
                queue_model,
                book,
                side,
                price,
                prev_qty,
                new_qty,
                all.take(i as int),
            )->0;
            proof {
                assert(before[i as int] == all[i as int]);
                assert(all.take(i + 1).drop_last() =~= all.take(i as int));
                assert(all.take(i + 1).last() == all[i as int]);
                lemma_requeued_fault::<QM, MD>(
                    queue_model,
                    book,
                    side,
                    price,
                    prev_qty,
                    new_qty,
                    all,
                    i + 1,
                );
            }
            if self.orders.entries[i].1.order.side == side && self.orders.entries[i].1.order.price
                == price {
                let order: OrderTerms = terms(&self.orders.entries[i].1.order);
                let moved: Option<QM::State> = self.queue_model.depth(
                    &order,
                    self.orders.entries[i].1.queue_state,
                    prev_qty,
                    new_qty,
                    &self.depth,
                );
                match moved {
                    None => {
                        return Err(BacktestError::Overflow);
                    },
                    Some(queue_state) => {
                        self.orders.entries[i].1.queue_state = queue_state;
                        proof {
                            let queued = QueuedOrder { queue_state, ..all[i as int].1 };
                            assert(self.orders@ =~= before.update(
                                i as int,
                                (before[i as int].0, queued),
                            ));
                            lemma_orders_updated(before, i as int, queued);
                            assert(self.orders@ =~= done.push((all[i as int].0, queued)) + all.skip(
                                i + 1,
                            ));
                        }
                    },
                }
            } else {
                assert(self.orders@ =~= done.push(all[i as int]) + all.skip(i + 1));
            }
            i = i + 1;
        }
        assert(all.take(i as int) =~= all);
        assert(all.skip(i as int) =~= Seq::empty());
        Ok(())
    }
}

/// What a liquidity-taking order would trade, level by level.
#[derive(Debug)]
pub struct LiquidityPlan {
    /// The side of the order.
    pub side: Side,
    /// The worst price that the order accepts, where it has one.
    pub limit: Option<Decimal>,
    /// The prices and quantities that the order would trade.
    pub levels: Vec<(Decimal, Decimal)>,
    /// What is left of the order.
    pub remaining: Decimal,
    /// Whether a number on the way could not be held.
    pub fault: bool,
}

/// What a liquidity-taking order would trade, level by level.
#[verifier::ext_equal]
pub struct LiquidityModel {
    /// The side of the order.
    pub side: Side,
    /// The worst price that the order accepts, where it has one.
    pub limit: Option<Decimal>,
    /// The prices and quantities that the order would trade.
    pub levels: Seq<(Decimal, Decimal)>,
    /// What is left of the order.
    pub remaining: Decimal,
    /// Whether a number on the way could not be held.
    pub fault: bool,
}

impl View for LiquidityPlan {
    type V = LiquidityModel;

    open spec fn view(&self) -> LiquidityModel {
        LiquidityModel {
            side: self.side,
            limit: self.limit,
            levels: self.levels@,
            remaining: self.remaining,
            fault: self.fault,
        }
    }
}

/// Whether a price is worse than an order accepts.
pub open spec fn beyond_limit(side: Side, limit: Option<Decimal>, price: Decimal) -> bool {
    match limit {
        None => false,
        Some(limit) => match side {
            Side::Buy => price@ > limit@,
            Side::Sell => price@ < limit@,
        },
    }
}

impl DepthVisitor for LiquidityPlan {
    open spec fn visited(before: LiquidityModel, price: Decimal, qty: Decimal) -> (
        LiquidityModel,
        bool,
    ) {
        let exec_qty = qty.smaller(before.remaining);
        if beyond_limit(before.side, before.limit, price) {
            (before, false)
        } else if qty@ > 0 && exec_qty@ > 0 {
            match before.remaining.difference(exec_qty) {
                None => (LiquidityModel { fault: true, ..before }, false),
                Some(remaining) => (
                    LiquidityModel {
                        levels: before.levels.push((price, exec_qty)),
                        remaining,
                        ..before
                    },
                    remaining@ > 0,
                ),
            }
        } else {
            (before, before.remaining@ > 0)
        }
    }

    fn visit(&mut self, price: Decimal, qty: Decimal) -> (r: bool) {
        if let Some(limit) = self.limit {
            let beyond: bool = match self.side {
                Side::Buy => limit.lt(price),
                Side::Sell => price.lt(limit),
            };
            if beyond {
                return false;
            }
        }
        if qty.is_positive() {
            let exec_qty: Decimal = qty.min(self.remaining);
            if exec_qty.is_positive() {
                match self.remaining.checked_sub(exec_qty) {
                    Some(remaining) => {
                        self.levels.push((price, exec_qty));
                        self.remaining = remaining;
                    },
                    None => {
                        self.fault = true;
                        return false;
                    },
                }
            }
        }
        self.remaining.is_positive()
    }
}

/// The levels that an order can trade against, the best first.
pub open spec fn opposite_levels(side: Side, book: Book) -> Seq<(Decimal, Decimal)> {
    match (side, best_opposite(side, book)) {
        (_, None) => Seq::empty(),
        (Side::Buy, Some(best)) => book.asks_from(best@),
        (Side::Sell, Some(best)) => book.bids_from(best@),
    }
}

/// What a liquidity-taking order starts with.
pub open spec fn plan_start(order: Order) -> LiquidityModel {
    LiquidityModel {
        side: order.side,
        limit: if order.order_type == OrdType::Limit {
            Some(order.price)
        } else {
            None
        },
        levels: Seq::empty(),
        remaining: order.leaves_qty,
        fault: false,
    }
}

/// What a liquidity-taking order would trade: the prices and quantities, and what would be left.
pub open spec fn planned(order: Order, book: Book) -> Option<(Seq<(Decimal, Decimal)>, Decimal)> {
    let plan = walked::<LiquidityPlan>(opposite_levels(order.side, book), plan_start(order));
    if plan.fault {
        None
    } else {
        Some((plan.levels, plan.remaining))
    }
}

/// What taking levels does, one after the other until the order is filled: the order, and what was
/// traded.
pub open spec fn levels_filled<AT: AssetType, FM: FeeModel, QM>(
    venue: Venue<AT, FM, QM>,
    values: StateValues,
    order: Order,
    timestamp: i64,
    levels: Seq<(Decimal, Decimal)>,
) -> Result<(Order, StateValues), BacktestError>
    decreases levels.len(),
{
    if levels.len() == 0 {
        Ok((order, values))
    } else {
        match order_filled(venue, values, order, timestamp, false, levels[0].0, levels[0].1) {
            Err(error) => Err(error),
            Ok(after) => if after.0.status == Status::Filled {
                Ok(after)
            } else {
                levels_filled(venue, after.1, after.0, timestamp, levels.skip(1))
            },
        }
    }
}

/// The orders in the book and what was traded.
#[verifier::ext_equal]
pub struct Ledger<S> {
    /// The orders in the book, by their identifiers.
    pub orders: Seq<(OrderId, QueuedOrder<S>)>,
    /// What was traded.
    pub values: StateValues,
}

/// What a request leaves: the order and the ledger.
#[verifier::ext_equal]
pub struct Placed<S> {
    /// The order.
    pub order: Order,
    /// The ledger.
    pub ledger: Ledger<S>,
}

/// An order that ends without being filled further.
pub open spec fn expired(order: Order, timestamp: i64) -> Order {
    Order { status: Status::Expired, exch_timestamp: timestamp, ..order }
}

/// The status of an order in the book.
pub open spec fn resting_status(order: Order) -> Status {
    if order.cum_exec_qty@ > 0 {
        Status::PartiallyFilled
    } else {
        Status::New
    }
}

/// An order that comes to rest in the book.
pub open spec fn rested<AT, FM, QM: QueueModel<MD>, MD: MarketDepth>(
    venue: Venue<AT, FM, QM>,
    book: Book,
    ledger: Ledger<QM::State>,
    order: Order,
    timestamp: i64,
) -> Placed<QM::State> {
    let resting = Order { status: resting_status(order), exch_timestamp: timestamp, ..order };
    let queued = QueuedOrder {
        order: resting,
        queue_state: venue.queue_model.starting(terms_of(order), book),
    };
    Placed {
        order: resting,
        ledger: Ledger { orders: inserted(ledger.orders, order.order_id, queued), ..ledger },
    }
}

/// What becomes of an order that takes liquidity: it trades against the book level by level. An
/// order that must be filled at once is not filled in part. What the book does not hold of an order
/// that lasts is filled at the price of the order, and of another order it is dropped.
pub open spec fn taken<AT: AssetType, FM: FeeModel, QM, S>(
    venue: Venue<AT, FM, QM>,
    book: Book,
    ledger: Ledger<S>,
    order: Order,
    timestamp: i64,
) -> Result<Placed<S>, BacktestError> {
    match planned(order, book) {
        None => Err(BacktestError::Overflow),
        Some((levels, remaining)) => if order.time_in_force == TimeInForce::FOK && remaining@ > 0 {
            Ok(Placed { order: expired(order, timestamp), ledger })
        } else {
            match levels_filled(venue, ledger.values, order, timestamp, levels) {
                Err(error) => Err(error),
                Ok((after, values)) => if levels.len() > 0 && after.status == Status::Filled {
                    Ok(Placed { order: after, ledger: Ledger { values, ..ledger } })
                } else if order.order_type == OrdType::Limit && order.time_in_force
                    == TimeInForce::GTC {
                    match order_filled(
                        venue,
                        values,
                        after,
                        timestamp,
                        false,
                        after.price,
                        after.leaves_qty,
                    ) {
                        Err(error) => Err(error),
                        Ok((after, values)) => Ok(
                            Placed { order: after, ledger: Ledger { values, ..ledger } },
                        ),
                    }
                } else {
                    Ok(
                        Placed {
                            order: expired(after, timestamp),
                            ledger: Ledger { values, ..ledger },
                        },
                    )
                },
            }
        },
    }
}

/// What becomes of an order whose price is known.
pub open spec fn placed_at<
    AT: AssetType,
    FM: FeeModel,
    QM: QueueModel<MD>,
    MD: MarketDepth,
>(
    venue: Venue<AT, FM, QM>,
    book: Book,
    ledger: Ledger<QM::State>,
    order: Order,
    timestamp: i64,
) -> Result<Placed<QM::State>, BacktestError> {
    let limit = order.order_type == OrdType::Limit;
    if limit && !crosses_book(order.side, order.price, book) {
        if order.time_in_force == TimeInForce::GTC || order.time_in_force == TimeInForce::GTX {
            Ok(rested::<AT, FM, QM, MD>(venue, book, ledger, order, timestamp))
        } else {
            Ok(Placed { order: expired(order, timestamp), ledger })
        }
    } else if limit && order.time_in_force == TimeInForce::GTX {
        Ok(Placed { order: expired(order, timestamp), ledger })
    } else {
        taken(venue, book, ledger, order, timestamp)
    }
}

/// How the price of an order is found.
pub open spec fn instruction_of(order: Order) -> PriceInstruction {
    PriceInstruction {
        side: order.side,
        order_type: order.order_type,
        price_match: order.price_match,
        price: order.price,
    }
}

/// How the price of an order is found.
fn price_instruction(order: &Order) -> (r: PriceInstruction)
    ensures
        r == instruction_of(*order),
{
    PriceInstruction {
        side: order.side,
        order_type: order.order_type,
        price_match: order.price_match,
        price: order.price,
    }
}

/// What becomes of an order that reaches the exchange.
pub open spec fn placed<
    AT: AssetType,
    FM: FeeModel,
    QM: QueueModel<MD>,
    MD: MarketDepth,
>(
    venue: Venue<AT, FM, QM>,
    book: Book,
    ledger: Ledger<QM::State>,
    order: Order,
    timestamp: i64,
    validate_rule: bool,
) -> Result<Placed<QM::State>, BacktestError> {
    let allowed = if validate_rule {
        rule_satisfied(instruction_of(order), timestamp, venue.changes)
    } else {
        Ok(true)
    };
    if holds(ledger.orders, order.order_id as int) {
        Err(BacktestError::OrderIdExist)
    } else {
        match allowed {
            Err(error) => Err(BacktestError::TickSize(error)),
            Ok(false) => Ok(Placed { order: expired(order, timestamp), ledger }),
            Ok(true) => match resolved_price(instruction_of(order), book) {
                None => Ok(Placed { order: expired(order, timestamp), ledger }),
                Some(price) => placed_at::<AT, FM, QM, MD>(
                    venue,
                    book,
                    ledger,
                    Order { price, ..order },
                    timestamp,
                ),
            },
        }
    }
}

/// An order whose request is refused.
pub open spec fn refused(order: Order, timestamp: i64) -> Order {
    Order { req: Status::Rejected, exch_timestamp: timestamp, ..order }
}

/// What becomes of a request to cancel an order.
pub open spec fn canceled<S>(ledger: Ledger<S>, order: Order, timestamp: i64) -> Placed<S> {
    match lookup(ledger.orders, order.order_id as int) {
        None => Placed { order: refused(order, timestamp), ledger },
        Some(queued) => Placed {
            order: Order { status: Status::Canceled, exch_timestamp: timestamp, ..queued.order },
            ledger: Ledger { orders: removed(ledger.orders, order.order_id as int), ..ledger },
        },
    }
}

/// What becomes of an order that left the book to be modified: it is placed again unless nothing is
/// left of it or it would cross the book though it is post-only.
pub open spec fn replaced<
    AT: AssetType,
    FM: FeeModel,
    QM: QueueModel<MD>,
    MD: MarketDepth,
>(
    venue: Venue<AT, FM, QM>,
    book: Book,
    left: Placed<QM::State>,
    request: Order,
    price: Decimal,
    timestamp: i64,
) -> Result<Placed<QM::State>, BacktestError> {
    let order = Order {
        local_timestamp: request.local_timestamp,
        price_match: request.price_match,
        ..left.order
    };
    let crosses = order.order_type == OrdType::Limit && order.time_in_force == TimeInForce::GTX
        && crosses_book(order.side, price, book);
    if (order.cum_exec_qty@ > 0 && request.qty@ <= order.cum_exec_qty@) || crosses {
        Ok(Placed { order, ledger: left.ledger })
    } else {
        match request.qty.difference(order.cum_exec_qty) {
            None => Err(BacktestError::Overflow),
            Some(leaves_qty) => placed::<AT, FM, QM, MD>(
                venue,
                book,
                left.ledger,
                Order {
                    price,
                    qty: request.qty,
                    leaves_qty,
                    status: resting_status(order),
                    ..order
                },
                timestamp,
                false,
            ),
        }
    }
}

/// What becomes of a request to modify an order. A price that changes must satisfy the rule that is
/// in effect; a request that cannot be granted leaves the order in the book as it is.
pub open spec fn modified<
    AT: AssetType,
    FM: FeeModel,
    QM: QueueModel<MD>,
    MD: MarketDepth,
>(
    venue: Venue<AT, FM, QM>,
    book: Book,
    ledger: Ledger<QM::State>,
    request: Order,
    timestamp: i64,
) -> Result<Placed<QM::State>, BacktestError> {
    let same_price = match lookup(ledger.orders, request.order_id as int) {
        Some(existing) => existing.order.price@ == request.price@,
        None => false,
    };
    let allowed = if same_price {
        Ok(true)
    } else {
        rule_satisfied(instruction_of(request), timestamp, venue.changes)
    };
    match allowed {
        Err(error) => Err(BacktestError::TickSize(error)),
        Ok(false) => Ok(Placed { order: refused(request, timestamp), ledger }),
        Ok(true) => match resolved_price(instruction_of(request), book) {
            None => Ok(Placed { order: refused(request, timestamp), ledger }),
            Some(price) => {
                let left = canceled(ledger, request, timestamp);
                if left.order.req == Status::Rejected {
                    Ok(left)
                } else {
                    replaced::<AT, FM, QM, MD>(venue, book, left, request, price, timestamp)
                }
            },
        },
    }
}

impl<
    AT: AssetType,
    LM: LatencyModel<Order, Order>,
    QM: QueueModel<MD>,
    MD: MarketDepth,
    FM: FeeModel,
> PartialFillExchange<AT, LM, QM, MD, FM> {
    /// The orders in the book and what was traded.
    pub open spec fn ledger(&self) -> Ledger<QM::State> {
        Ledger { orders: self.orders@, values: self.state.state_values }
    }

    /// What a liquidity-taking order would trade: the prices and quantities, and what would be left.
    pub fn liquidity(&self, order: &Order) -> (r: Option<(Vec<(Decimal, Decimal)>, Decimal)>)
        requires
            self.depth.wf(),
        ensures
            match planned(*order, self.depth.book()) {
                Some(plan) => r matches Some(found) && found.0@ == plan.0 && found.1 == plan.1,
                None => r is None,
            },
    {
        let mut plan: LiquidityPlan = LiquidityPlan {
            side: order.side,
            limit: if order.order_type == OrdType::Limit {
                Some(order.price)
            } else {
                None
            },
            levels: Vec::new(),
            remaining: order.leaves_qty,
            fault: false,
        };
        assert(plan@ =~= plan_start(*order));
        match order.side {
            Side::Buy => {
                if let Some(start) = self.depth.best_ask() {
                    self.depth.for_each_ask_depth_from(start, &mut plan);
                }
            },
            Side::Sell => {
                if let Some(start) = self.depth.best_bid() {
                    self.depth.for_each_bid_depth_from(start, &mut plan);
                }
            },
        }
        if plan.fault {
            None
        } else {
            Some((plan.levels, plan.remaining))
        }
    }

    /// Ends an order without filling it further.
    fn expire(order: &mut Order, timestamp: i64)
        ensures
            *final(order) == expired(*old(order), timestamp),
    {
        order.status = Status::Expired;
        order.exch_timestamp = timestamp;
    }

    /// Puts an order into the book.
    fn rest_order(&mut self, order: &mut Order, timestamp: i64)
        requires
            old(self).wf(),
            !holds(old(self).orders@, old(order).order_id as int),
        ensures
            final(self).wf(),
            final(self).same_market(old(self)),
            final(self).order_e2l == old(self).order_e2l,
            ({
                let after = rested::<AT, FM, QM, MD>(
                    old(self).venue(),
                    old(self).depth.book(),
                    old(self).ledger(),
                    *old(order),
                    timestamp,
                );
                *final(order) == after.order && final(self).ledger() == after.ledger
            }),
    {
        let queue_state: QM::State = self.queue_model.new_order(&terms(order), &self.depth);
        order.status = if order.cum_exec_qty.is_positive() {
            Status::PartiallyFilled
        } else {
            Status::New
        };
        order.exch_timestamp = timestamp;
        let queued: QueuedOrder<QM::State> = QueuedOrder { order: *order, queue_state };
        let order_id: OrderId = order.order_id;
        proof {
            lemma_orders_inserted(self.orders@, order_id, queued);
        }
        self.orders.insert(order_id, queued);
    }

    /// Takes levels, one after the other until the order is filled. Whether it is filled then.
    fn take_levels(
        &mut self,
        order: &mut Order,
        timestamp: i64,
        levels: Vec<(Decimal, Decimal)>,
    ) -> (r: Result<bool, BacktestError>)
        requires
            old(self).wf(),
        ensures
            final(self).wf(),
            final(self).same_market(old(self)),
            final(self).orders == old(self).orders,
            final(self).order_e2l == old(self).order_e2l,
            match levels_filled(
                old(self).venue(),
                old(self).state.state_values,
                *old(order),
                timestamp,
                levels@,
            ) {
                Ok(after) => r == Ok::<bool, BacktestError>(
                    levels@.len() > 0 && after.0.status == Status::Filled,
                ) && *final(order) == after.0 && final(self).state.state_values == after.1,
                Err(error) => r == Err::<bool, BacktestError>(error),
            },
    {
        let ghost venue = self.venue();
        let ghost expected = levels_filled(
            venue,
            self.state.state_values,
            *order,
            timestamp,
            levels@,
        );
        assert(levels@.skip(0) =~= levels@);
        let mut i: usize = 0;
        while i < levels.len()
            invariant
                i <= levels@.len(),
                self.wf(),
                self.same_market(old(self)),
                self.orders == old(self).orders,
                self.order_e2l == old(self).order_e2l,
                venue == old(self).venue(),
                expected == levels_filled(
                    venue,
                    self.state.state_values,
                    *order,
                    timestamp,
                    levels@.skip(i as int),
                ),
                expected == levels_filled(
                    old(self).venue(),
                    old(self).state.state_values,
                    *old(order),
                    timestamp,
                    levels@,
                ),
                i > 0 ==> order.status != Status::Filled,
            decreases levels@.len() - i,
        {
            let (price, exec_qty): (Decimal, Decimal) = levels[i];
            assert(levels@.skip(i as int)[0] == levels@[i as int]);
            assert(levels@.skip(i as int).skip(1) =~= levels@.skip(i + 1));
            match self.fill(order, timestamp, false, price, exec_qty) {
                Ok(()) => {},
                Err(error) => {
                    return Err(error);
                },
            }
            if order.status == Status::Filled {
                return Ok(true);
            }
            i = i + 1;
        }
        Ok(false)
    }

    /// Places an order.
    #[verifier::spinoff_prover]
    #[verifier::rlimit(60)]
    pub fn ack_new_checked(&mut self, order: &mut Order, timestamp: i64, validate_rule: bool) -> (r:
        Result<(), BacktestError>)
        requires
            old(self).wf(),
        ensures
            final(self).wf(),
            final(self).same_market(old(self)),
            final(self).order_e2l == old(self).order_e2l,
            match placed::<AT, FM, QM, MD>(
                old(self).venue(),
                old(self).depth.book(),
                old(self).ledger(),
                *old(order),
                timestamp,
                validate_rule,
            ) {
                Ok(after) => r is Ok && *final(order) == after.order && final(self).ledger()
                    == after.ledger,
                Err(error) => {
                    &&& r == Err::<(), BacktestError>(error)
                    &&& error.refuses() ==> *final(order) == *old(order) && final(self).ledger()
                        == old(self).ledger()
                },
            },
    {
        if self.orders.contains(&order.order_id) {
            return Err(BacktestError::OrderIdExist);
        }
        if validate_rule {
            match price_satisfies_rule(&price_instruction(order), timestamp, &self.tick_sizes) {
                Err(error) => {
                    return Err(BacktestError::TickSize(error));
                },
                Ok(false) => {
                    Self::expire(order, timestamp);
                    return Ok(());
                },
                Ok(true) => {},
            }
        }
        let price: Decimal = match resolve_price_match(&price_instruction(order), &self.depth) {
            Some(price) => price,
            None => {
                Self::expire(order, timestamp);
                return Ok(());
            },
        };
        order.price = price;
        let crosses: bool = is_crossing(order.side, order.price, &self.depth);
        if order.order_type == OrdType::Limit && !crosses {
            match order.time_in_force {
                TimeInForce::GTC | TimeInForce::GTX => {
                    self.rest_order(order, timestamp);
                    return Ok(());
                },
                TimeInForce::FOK | TimeInForce::IOC => {
                    Self::expire(order, timestamp);
                    return Ok(());
                },
            }
        }
        if order.order_type == OrdType::Limit && order.time_in_force == TimeInForce::GTX {
            Self::expire(order, timestamp);
            return Ok(());
        }
        let (levels, remaining): (Vec<(Decimal, Decimal)>, Decimal) = match self.liquidity(order) {
            Some(plan) => plan,
            None => {
                return Err(BacktestError::Overflow);
            },
        };
        if order.time_in_force == TimeInForce::FOK && remaining.is_positive() {
            Self::expire(order, timestamp);
            return Ok(());
        }
        proof {
            lemma_levels_filled_terms(
                self.venue(),
                self.state.state_values,
                *order,
                timestamp,
                levels@,
            );
        }
        match self.take_levels(order, timestamp, levels) {
            Err(error) => {
                return Err(error);
            },
            Ok(true) => {
                return Ok(());
            },
            Ok(false) => {},
        }
        if order.order_type == OrdType::Limit && order.time_in_force == TimeInForce::GTC {
            let leaves_qty: Decimal = order.leaves_qty;
            let price: Decimal = order.price;
            return self.fill(order, timestamp, false, price, leaves_qty);
        }
        Self::expire(order, timestamp);
        Ok(())
    }

    /// Places a new order, which must satisfy the tick-size rule.
    pub fn ack_new(&mut self, order: &mut Order, timestamp: i64) -> (r: Result<(), BacktestError>)
        requires
            old(self).wf(),
        ensures
            final(self).wf(),
            final(self).same_market(old(self)),
            final(self).order_e2l == old(self).order_e2l,
            match placed::<AT, FM, QM, MD>(
                old(self).venue(),
                old(self).depth.book(),
                old(self).ledger(),
                *old(order),
                timestamp,
                true,
            ) {
                Ok(after) => r is Ok && *final(order) == after.order && final(self).ledger()
                    == after.ledger,
                Err(error) => {
                    &&& r == Err::<(), BacktestError>(error)
                    &&& error.refuses() ==> *final(order) == *old(order) && final(self).ledger()
                        == old(self).ledger()
                },
            },
    {
        self.ack_new_checked(order, timestamp, true)
    }

    /// Cancels an order. `order` becomes the order that was in the book, where there is one.
    pub fn ack_cancel(&mut self, order: &mut Order, timestamp: i64)
        requires
            old(self).wf(),
        ensures
            final(self).wf(),
            final(self).same_market(old(self)),
            final(self).order_e2l == old(self).order_e2l,
            ({
                let after = canceled(old(self).ledger(), *old(order), timestamp);
                *final(order) == after.order && final(self).ledger() == after.ledger
            }),
    {
        let order_id: OrderId = order.order_id;
        proof {
            if holds(self.orders@, order_id as int) {
                lemma_below_grows(self.orders@, order_id as int, order_id as int);
                lemma_orders_removed(self.orders@, below(self.orders@, order_id as int));
            }
        }
        match self.orders.remove(&order_id) {
            None => {
                order.req = Status::Rejected;
                order.exch_timestamp = timestamp;
            },
            Some(queued) => {
                *order = queued.order;
                order.status = Status::Canceled;
                order.exch_timestamp = timestamp;
            },
        }
    }

    /// Modifies an order. `order` carries the new price and quantity, and becomes the order after
    /// the request.
    #[verifier::spinoff_prover]
    #[verifier::rlimit(50)]
    pub fn ack_modify(&mut self, order: &mut Order, timestamp: i64) -> (r: Result<
        (),
        BacktestError,
    >)
        requires
            old(self).wf(),
        ensures
            final(self).wf(),
            final(self).same_market(old(self)),
            final(self).order_e2l == old(self).order_e2l,
            match modified::<AT, FM, QM, MD>(
                old(self).venue(),
                old(self).depth.book(),
                old(self).ledger(),
                *old(order),
                timestamp,
            ) {
                Ok(after) => r is Ok && *final(order) == after.order && final(self).ledger()
                    == after.ledger,
                Err(error) => {
                    &&& r == Err::<(), BacktestError>(error)
                    &&& error.refuses() ==> *final(order) == *old(order) && final(self).ledger()
                        == old(self).ledger()
                },
            },
    {
        let unchanged_price: bool = match self.orders.get(&order.order_id) {
            Some(existing) => existing.order.price == order.price,
            None => false,
        };
        if !unchanged_price {
            match price_satisfies_rule(&price_instruction(order), timestamp, &self.tick_sizes) {
                Err(error) => {
                    return Err(BacktestError::TickSize(error));
                },
                Ok(false) => {
                    order.req = Status::Rejected;
                    order.exch_timestamp = timestamp;
                    return Ok(());
                },
                Ok(true) => {},
            }
        }
        let requested_price_match: PriceMatch = order.price_match;
        let requested_qty: Decimal = order.qty;
        let request_timestamp: i64 = order.local_timestamp;
        let requested_price: Decimal = match resolve_price_match(
            &price_instruction(order),
            &self.depth,
        ) {
            Some(price) => price,
            None => {
                order.req = Status::Rejected;
                order.exch_timestamp = timestamp;
                return Ok(());
            },
        };
        self.ack_cancel(order, timestamp);
        if order.req == Status::Rejected {
            return Ok(());
        }
        order.local_timestamp = request_timestamp;
        order.price_match = requested_price_match;
        let crosses: bool = order.order_type == OrdType::Limit && order.time_in_force
            == TimeInForce::GTX && is_crossing(order.side, requested_price, &self.depth);
        if (order.cum_exec_qty.is_positive() && requested_qty.le(order.cum_exec_qty)) || crosses {
            return Ok(());
        }
        order.price = requested_price;
        order.qty = requested_qty;
        order.leaves_qty = match requested_qty.checked_sub(order.cum_exec_qty) {
            Some(qty) => qty,
            None => {
                return Err(BacktestError::Overflow);
            },
        };
        order.status = if order.cum_exec_qty.is_positive() {
            Status::PartiallyFilled
        } else {
            Status::New
        };
        proof {
            let id = old(order).order_id;
            let n = below(old(self).orders@, id as int);
            lemma_below_splits(old(self).orders@, id as int);
            lemma_removed(old(self).orders@, id as int);
            lemma_placing_errors::<AT, FM, QM, MD>(
                self.venue(),
                self.depth.book(),
                self.ledger(),
                *order,
                timestamp,
            );
            assert(old(self).orders@[n].1.order.order_id == old(self).orders@[n].0);
            assert(order.order_id == id);
            assert(self.orders@ == removed(old(self).orders@, id as int));
        }
        self.ack_new_checked(order, timestamp, false)
    }
}

/// Taking levels leaves the terms of an order as they are. It fails for no other reason than that
/// the order is done or that a number cannot be held.
proof fn lemma_levels_filled_terms<AT: AssetType, FM: FeeModel, QM>(
    venue: Venue<AT, FM, QM>,
    values: StateValues,
    order: Order,
    timestamp: i64,
    levels: Seq<(Decimal, Decimal)>,
)
    ensures
        levels_filled(venue, values, order, timestamp, levels) matches Ok(after) ==> after.0.price
            == order.price && after.0.order_type == order.order_type && after.0.time_in_force
            == order.time_in_force && after.0.order_id == order.order_id && (levels.len() > 0
            ==> after.0.exch_timestamp == timestamp),
        levels_filled(venue, values, order, timestamp, levels) matches Err(error) ==> error
            == BacktestError::InvalidOrderStatus || error == BacktestError::Overflow,
    decreases levels.len(),
{
    if levels.len() > 0 {
        match order_filled(venue, values, order, timestamp, false, levels[0].0, levels[0].1) {
            Err(_) => {},
            Ok(after) => {
                lemma_levels_filled_terms(venue, after.1, after.0, timestamp, levels.skip(1));
            },
        }
    }
}

/// An order whose price was checked before fails for no other reason than that its identifier is
/// taken, that it is done, or that a number cannot be held.
proof fn lemma_placing_errors<AT: AssetType, FM: FeeModel, QM: QueueModel<MD>, MD: MarketDepth>(
    venue: Venue<AT, FM, QM>,
    book: Book,
    ledger: Ledger<QM::State>,
    order: Order,
    timestamp: i64,
)
    ensures
        placed::<AT, FM, QM, MD>(venue, book, ledger, order, timestamp, false) matches Err(error)
            ==> (error == BacktestError::OrderIdExist && holds(
            ledger.orders,
            order.order_id as int,
        )) || error == BacktestError::InvalidOrderStatus || error == BacktestError::Overflow,
{
    if let Some(price) = resolved_price(instruction_of(order), book) {
        let priced = Order { price, ..order };
        if let Some(plan) = planned(priced, book) {
            lemma_levels_filled_terms(venue, ledger.values, priced, timestamp, plan.0);
        }
    }
}

/// Putting an active order in leaves the orders in order.
proof fn lemma_orders_inserted<S>(
    orders: Seq<(OrderId, QueuedOrder<S>)>,
    order_id: OrderId,
    queued: QueuedOrder<S>,
)
    requires
        orders_ok(orders),
        !holds(orders, order_id as int),
        queued.order.order_id == order_id,
        queued.order.is_active(),
    ensures
        orders_ok(inserted(orders, order_id, queued)),
{
    lemma_inserted(orders, order_id, queued);
    lemma_below_grows(orders, order_id as int, order_id as int);
    let t = inserted(orders, order_id, queued);
    let n = below(orders, order_id as int);
    assert forall|a: int| 0 <= a < t.len() implies (#[trigger] t[a]).1.order.order_id == t[a].0
        && t[a].1.order.is_active() by {
        if a < n {
            assert(t[a] == orders[a]);
        } else if a > n {
            assert(t[a] == orders[a - 1]);
        }
    }
}

/// What setting a level does: the orders at its price move in the queue, and where the best price
/// of the side improves, the orders that it reaches are filled.
pub open spec fn level_set<
    AT: AssetType,
    LM: LatencyModel<Order, Order>,
    QM: QueueModel<MD>,
    MD: MarketDepth,
    FM: FeeModel,
>(
    venue: Venue<AT, FM, QM>,
    book: Book,
    counter: Counter<QM::State, LM>,
    side: Side,
    update: DepthUpdate,
) -> Result<Counter<QM::State, LM>, BacktestError> {
    match requeued::<QM, MD>(
        venue.queue_model,
        book,
        side,
        update.level_price,
        update.previous_qty,
        update.new_qty,
        counter.orders,
    ) {
        None => Err(BacktestError::Overflow),
        Some(orders) => {
            let moved = Counter { orders, ..counter };
            if improved(side, update.best_price, update.previous_best_price) {
                let best = update.best_price->0;
                swept::<AT, LM, QM, MD, FM>(
                    venue,
                    book,
                    match side {
                        Side::Buy => Trigger::BestBid(best),
                        Side::Sell => Trigger::BestAsk(best),
                    },
                    update.timestamp,
                    orders,
                    moved,
                )
            } else {
                Ok(moved)
            }
        },
    }
}

/// What market data does to the book and to the counter.
pub open spec fn processed<
    AT: AssetType,
    LM: LatencyModel<Order, Order>,
    QM: QueueModel<MD>,
    MD: MarketDepth,
    FM: FeeModel,
>(
    venue: Venue<AT, FM, QM>,
    book: Book,
    counter: Counter<QM::State, LM>,
    event: Event,
) -> Result<(Book, Counter<QM::State, LM>), BacktestError> {
    if flag_is(event.ev, EXCH_BID_DEPTH_CLEAR_EVENT) {
        Ok((book.cleared(Side::Buy, Some(event.px)), counter))
    } else if flag_is(event.ev, EXCH_ASK_DEPTH_CLEAR_EVENT) {
        Ok((book.cleared(Side::Sell, Some(event.px)), counter))
    } else if flag_is(event.ev, EXCH_DEPTH_CLEAR_EVENT) {
        Ok((book.cleared(Side::Buy, None).cleared(Side::Sell, None), counter))
    } else if flag_is(event.ev, EXCH_BID_DEPTH_EVENT) || flag_is(
        event.ev,
        EXCH_BID_DEPTH_SNAPSHOT_EVENT,
    ) {
        let after = book.bid_set(event.px, event.qty, event.exch_ts);
        match level_set::<AT, LM, QM, MD, FM>(
            venue,
            after,
            counter,
            Side::Buy,
            bid_update(book, event.px, event.qty, event.exch_ts),
        ) {
            Err(error) => Err(error),
            Ok(counter) => Ok(
                (
                    if flag_is(event.ev, EXCH_BID_DEPTH_SNAPSHOT_EVENT) {
                        after.marked_ready()
                    } else {
                        after
                    },
                    counter,
                ),
            ),
        }
    } else if flag_is(event.ev, EXCH_ASK_DEPTH_EVENT) || flag_is(
        event.ev,
        EXCH_ASK_DEPTH_SNAPSHOT_EVENT,
    ) {
        let after = book.ask_set(event.px, event.qty, event.exch_ts);
        match level_set::<AT, LM, QM, MD, FM>(
            venue,
            after,
            counter,
            Side::Sell,
            ask_update(book, event.px, event.qty, event.exch_ts),
        ) {
            Err(error) => Err(error),
            Ok(counter) => Ok(
                (
                    if flag_is(event.ev, EXCH_ASK_DEPTH_SNAPSHOT_EVENT) {
                        after.marked_ready()
                    } else {
                        after
                    },
                    counter,
                ),
            ),
        }
    } else if flag_is(event.ev, EXCH_BUY_TRADE_EVENT) || flag_is(event.ev, EXCH_SELL_TRADE_EVENT) {
        match swept::<AT, LM, QM, MD, FM>(
            venue,
            book,
            if flag_is(event.ev, EXCH_BUY_TRADE_EVENT) {
                Trigger::BuyTrade(event.px, event.qty)
            } else {
                Trigger::SellTrade(event.px, event.qty)
            },
            event.exch_ts,
            counter.orders,
            counter,
        ) {
            Err(error) => Err(error),
            Ok(counter) => Ok((book, counter)),
        }
    } else {
        Ok((book, counter))
    }
}

/// What becomes of a request, where there is one.
pub open spec fn acted<
    AT: AssetType,
    FM: FeeModel,
    QM: QueueModel<MD>,
    MD: MarketDepth,
>(
    venue: Venue<AT, FM, QM>,
    book: Book,
    ledger: Ledger<QM::State>,
    request: Order,
    timestamp: i64,
) -> Result<Placed<QM::State>, BacktestError> {
    let order = Order { req: Status::Unset, ..request };
    if request.req == Status::New {
        placed::<AT, FM, QM, MD>(venue, book, ledger, order, timestamp, true)
    } else if request.req == Status::Canceled {
        Ok(canceled(ledger, order, timestamp))
    } else if request.req == Status::Replaced {
        modified::<AT, FM, QM, MD>(venue, book, ledger, order, timestamp)
    } else {
        Err(BacktestError::InvalidOrderRequest)
    }
}

/// What handling a request and answering it leaves.
pub open spec fn answered<
    AT: AssetType,
    LM: LatencyModel<Order, Order>,
    QM: QueueModel<MD>,
    MD: MarketDepth,
    FM: FeeModel,
>(
    venue: Venue<AT, FM, QM>,
    book: Book,
    counter: Counter<QM::State, LM>,
    request: Order,
    timestamp: i64,
) -> Result<Counter<QM::State, LM>, BacktestError> {
    match acted::<AT, FM, QM, MD>(
        venue,
        book,
        Ledger { orders: counter.orders, values: counter.values },
        request,
        timestamp,
    ) {
        Err(error) => Err(error),
        Ok(after) => match delivered::<Order, Order, LM>(
            counter.latency,
            counter.to_local,
            after.order,
            after.order.exch_timestamp,
        ) {
            Err(error) => Err(error),
            Ok((latency, to_local)) => Ok(
                Counter {
                    orders: after.ledger.orders,
                    values: after.ledger.values,
                    latency,
                    to_local,
                },
            ),
        },
    }
}

/// What handling the requests that are received at a time leaves, and the requests that are still
/// under way.
pub open spec fn all_answered<
    AT: AssetType,
    LM: LatencyModel<Order, Order>,
    QM: QueueModel<MD>,
    MD: MarketDepth,
    FM: FeeModel,
>(
    venue: Venue<AT, FM, QM>,
    book: Book,
    counter: Counter<QM::State, LM>,
    requests: Seq<(Order, i64)>,
    timestamp: i64,
) -> Result<(Counter<QM::State, LM>, Seq<(Order, i64)>), BacktestError>
    decreases requests.len(),
{
    if requests.len() > 0 && is_due(requests, timestamp) {
        match answered::<AT, LM, QM, MD, FM>(venue, book, counter, requests[0].0, timestamp) {
            Err(error) => Err(error),
            Ok(after) => all_answered::<AT, LM, QM, MD, FM>(
                venue,
                book,
                after,
                requests.skip(1),
                timestamp,
            ),
        }
    } else {
        Ok((counter, requests))
    }
}

/// What is left when handling the requests that are received at a time ends with one that is refused:
/// what the requests in front of it leave, and the requests behind it.
pub open spec fn at_refusal<
    AT: AssetType,
    LM: LatencyModel<Order, Order>,
    QM: QueueModel<MD>,
    MD: MarketDepth,
    FM: FeeModel,
>(
    venue: Venue<AT, FM, QM>,
    book: Book,
    counter: Counter<QM::State, LM>,
    requests: Seq<(Order, i64)>,
    timestamp: i64,
) -> (Counter<QM::State, LM>, Seq<(Order, i64)>)
    decreases requests.len(),
{
    if requests.len() > 0 && is_due(requests, timestamp) {
        match answered::<AT, LM, QM, MD, FM>(venue, book, counter, requests[0].0, timestamp) {
            Err(_) => (counter, requests.skip(1)),
            Ok(after) => at_refusal::<AT, LM, QM, MD, FM>(
                venue,
                book,
                after,
                requests.skip(1),
                timestamp,
            ),
        }
    } else {
        (counter, requests)
    }
}

impl<
    AT: AssetType,
    LM: LatencyModel<Order, Order>,
    QM: QueueModel<MD>,
    MD: L2MarketDepth,
    FM: FeeModel,
> PartialFillExchange<AT, LM, QM, MD, FM> {
    /// When the exchange sees an event, where it sees it.
    pub fn event_seen_timestamp(&self, event: &Event) -> (r: Option<i64>)
        ensures
            r == (if flag_is(event.ev, EXCH_EVENT) {
                Some(event.exch_ts)
            } else {
                None
            }),
    {
        if event.is(EXCH_EVENT) {
            Some(event.exch_ts)
        } else {
            None
        }
    }

    /// Applies what setting a level does to the resting orders.
    fn on_level_set(
        &mut self,
        link: &mut OrderLink<Order, Order>,
        side: Side,
        update: DepthUpdate,
    ) -> (r: Result<(), BacktestError>)
        requires
            old(self).wf(),
            old(link).wf(),
        ensures
            final(self).wf(),
            final(link).wf(),
            final(link).to_exch@ == old(link).to_exch@,
            final(self).same_market(old(self)),
            match level_set::<AT, LM, QM, MD, FM>(
                old(self).venue(),
                old(self).depth.book(),
                old(self).counter(old(link)),
                side,
                update,
            ) {
                Ok(after) => r is Ok && final(self).counter(final(link)) == after,
                Err(error) => r == Err::<(), BacktestError>(error),
            },
    {
        match self.on_qty_chg(side, update.level_price, update.previous_qty, update.new_qty) {
            Ok(()) => {},
            Err(error) => {
                return Err(error);
            },
        }
        if is_improved(side, update.best_price, update.previous_best_price) {
            if let Some(best) = update.best_price {
                let trigger: Trigger = match side {
                    Side::Buy => Trigger::BestBid(best),
                    Side::Sell => Trigger::BestAsk(best),
                };
                return self.sweep(link, trigger, update.timestamp);
            }
        }
        Ok(())
    }

    /// Process an event and advance the state of the exchange.
    pub fn process(&mut self, link: &mut OrderLink<Order, Order>, event: &Event) -> (r:
        Result<(), BacktestError>)
        requires
            old(self).wf(),
            old(link).wf(),
        ensures
            final(self).wf(),
            final(link).wf(),
            final(link).to_exch@ == old(link).to_exch@,
            final(self).venue() == old(self).venue(),
            final(self).snapshot_enabled == old(self).snapshot_enabled,
            match processed::<AT, LM, QM, MD, FM>(
                old(self).venue(),
                old(self).depth.book(),
                old(self).counter(old(link)),
                *event,
            ) {
                Ok(after) => r is Ok && final(self).depth.book() == after.0
                    && final(self).counter(final(link)) == after.1,
                Err(error) => r == Err::<(), BacktestError>(error),
            },
    {
        if event.is(EXCH_BID_DEPTH_CLEAR_EVENT) {
            self.depth.clear_depth(Side::Buy, Some(event.px));
        } else if event.is(EXCH_ASK_DEPTH_CLEAR_EVENT) {
            self.depth.clear_depth(Side::Sell, Some(event.px));
        } else if event.is(EXCH_DEPTH_CLEAR_EVENT) {
            self.depth.clear_depth(Side::Buy, None);
            self.depth.clear_depth(Side::Sell, None);
        } else if event.is(EXCH_BID_DEPTH_EVENT) || event.is(EXCH_BID_DEPTH_SNAPSHOT_EVENT) {
            let update: DepthUpdate = self.depth.update_bid_depth(
                event.px,
                event.qty,
                event.exch_ts,
            );
            match self.on_level_set(link, Side::Buy, update) {
                Ok(()) => {},
                Err(error) => {
                    return Err(error);
                },
            }
            if event.is(EXCH_BID_DEPTH_SNAPSHOT_EVENT) {
                self.depth.mark_depth_ready();
            }
        } else if event.is(EXCH_ASK_DEPTH_EVENT) || event.is(EXCH_ASK_DEPTH_SNAPSHOT_EVENT) {
            let update: DepthUpdate = self.depth.update_ask_depth(
                event.px,
                event.qty,
                event.exch_ts,
            );
            match self.on_level_set(link, Side::Sell, update) {
                Ok(()) => {},
                Err(error) => {
                    return Err(error);
                },
            }
            if event.is(EXCH_ASK_DEPTH_SNAPSHOT_EVENT) {
                self.depth.mark_depth_ready();
            }
        } else if event.is(EXCH_BUY_TRADE_EVENT) {
            return self.sweep(link, Trigger::BuyTrade(event.px, event.qty), event.exch_ts);
        } else if event.is(EXCH_SELL_TRADE_EVENT) {
            return self.sweep(link, Trigger::SellTrade(event.px, event.qty), event.exch_ts);
        }
        Ok(())
    }

    /// Handles a request and answers it.
    fn handle(
        &mut self,
        link: &mut OrderLink<Order, Order>,
        request: Order,
        timestamp: i64,
    ) -> (r: Result<(), BacktestError>)
        requires
            old(self).wf(),
            old(link).wf(),
        ensures
            final(self).wf(),
            final(link).wf(),
            final(link).to_exch@ == old(link).to_exch@,
            final(self).same_market(old(self)),
            match answered::<AT, LM, QM, MD, FM>(
                old(self).venue(),
                old(self).depth.book(),
                old(self).counter(old(link)),
                request,
                timestamp,
            ) {
                Ok(after) => r is Ok && final(self).counter(final(link)) == after,
                Err(error) => r == Err::<(), BacktestError>(error) && (error.refuses()
                    ==> final(self).counter(final(link)) == old(self).counter(old(link))),
            },
    {
        let mut order: Order = request;
        order.req = Status::Unset;
        match request.req {
            // Processes a new order.
            Status::New => match self.ack_new(&mut order, timestamp) {
                Ok(()) => {},
                Err(error) => {
                    return Err(error);
                },
            },
            // Processes a cancel order.
            Status::Canceled => {
                self.ack_cancel(&mut order, timestamp);
            },
            // Processes a modify order.
            Status::Replaced => match self.ack_modify(&mut order, timestamp) {
                Ok(()) => {},
                Err(error) => {
                    return Err(error);
                },
            },
            _ => {
                return Err(BacktestError::InvalidOrderRequest);
            },
        }
        // Makes the response.
        self.order_e2l.deliver(link, order, order.exch_timestamp)
    }

    /// Processes the requests that are received at `timestamp`. This is invoked when the
    /// simulation reaches the receipt timestamp.
    pub fn process_recv_order(&mut self, link: &mut OrderLink<Order, Order>, timestamp: i64) -> (r:
        Result<bool, BacktestError>)
        requires
            old(self).wf(),
            old(link).wf(),
            nothing_overdue(old(link).to_exch@, timestamp),
        ensures
            final(self).wf(),
            final(link).wf(),
            final(self).same_market(old(self)),
            match all_answered::<AT, LM, QM, MD, FM>(
                old(self).venue(),
                old(self).depth.book(),
                old(self).counter(old(link)),
                old(link).to_exch@,
                timestamp,
            ) {
                Ok(after) => r == Ok::<bool, BacktestError>(false) && final(self).counter(
                    final(link),
                ) == after.0 && final(link).to_exch@ == after.1,
                Err(error) => r == Err::<bool, BacktestError>(error) && (error.refuses() ==> (
                    final(self).counter(final(link)),
                    final(link).to_exch@,
                ) == at_refusal::<AT, LM, QM, MD, FM>(
                    old(self).venue(),
                    old(self).depth.book(),
                    old(self).counter(old(link)),
                    old(link).to_exch@,
                    timestamp,
                )),
            },
    {
        let ghost venue = self.venue();
        let ghost book = self.depth.book();
        let ghost expected = all_answered::<AT, LM, QM, MD, FM>(
            venue,
            book,
            self.counter(link),
            link.to_exch@,
            timestamp,
        );
        let ghost stop = at_refusal::<AT, LM, QM, MD, FM>(
            venue,
            book,
            self.counter(link),
            link.to_exch@,
            timestamp,
        );
        loop
            invariant_except_break
                expected == all_answered::<AT, LM, QM, MD, FM>(
                    venue,
                    book,
                    self.counter(link),
                    link.to_exch@,
                    timestamp,
                ),
                stop == at_refusal::<AT, LM, QM, MD, FM>(
                    venue,
                    book,
                    self.counter(link),
                    link.to_exch@,
                    timestamp,
                ),
            invariant
                self.wf(),
                link.wf(),
                nothing_overdue(link.to_exch@, timestamp),
                self.same_market(old(self)),
                venue == old(self).venue(),
                book == old(self).depth.book(),
                expected == all_answered::<AT, LM, QM, MD, FM>(
                    old(self).venue(),
                    old(self).depth.book(),
                    old(self).counter(old(link)),
                    old(link).to_exch@,
                    timestamp,
                ),
                stop == at_refusal::<AT, LM, QM, MD, FM>(
                    old(self).venue(),
                    old(self).depth.book(),
                    old(self).counter(old(link)),
                    old(link).to_exch@,
                    timestamp,
                ),
            ensures
                expected == Ok::<
                    (Counter<QM::State, LM>, Seq<(Order, i64)>),
                    BacktestError,
                >((self.counter(link), link.to_exch@)),
            decreases link.to_exch@.len(),
        {
            match self.order_e2l.receive(link, timestamp) {
                Some(request) => {
                    match self.handle(link, request, timestamp) {
                        Ok(()) => {},
                        Err(error) => {
                            return Err(error);
                        },
                    }
                },
                None => {
                    break ;
                },
            }
        }
        Ok(false)
    }

    /// Returns the foremost timestamp at which a request is to be received by the exchange.
    pub fn earliest_recv_order_timestamp(&self, link: &OrderLink<Order, Order>) -> (r:
        i64)
        ensures
            r == (if link.to_exch@.len() == 0 {
                i64::MAX
            } else {
                link.to_exch@[0].1
            }),
    {
        match self.order_e2l.earliest_recv_order_timestamp(link) {
            Some(timestamp) => timestamp,
            None => i64::MAX,
        }
    }

    /// Returns the foremost timestamp at which a response sent by the exchange is to be received by
    /// the local side.
    pub fn earliest_send_order_timestamp(&self, link: &OrderLink<Order, Order>) -> (r:
        i64)
        ensures
            r == (if link.to_local@.len() == 0 {
                i64::MAX
            } else {
                link.to_local@[0].1
            }),
    {
        match self.order_e2l.earliest_send_order_timestamp(link) {
            Some(timestamp) => timestamp,
            None => i64::MAX,
        }
    }
}

/// What is left of a quantity after a row of levels was taken from it.
pub open spec fn left_after(qty: Decimal, levels: Seq<(Decimal, Decimal)>) -> Option<Decimal>
    decreases levels.len(),
{
    if levels.len() == 0 {
        Some(qty)
    } else {
        match left_after(qty, levels.drop_last()) {
            None => None,
            Some(left) => left.difference(levels.last().1),
        }
    }
}

/// Whether a plan is about a quantity: what is left of it is what the levels leave, and nothing was
/// planned once nothing was left.
pub open spec fn plan_of(
    qty: Decimal,
    levels: Seq<(Decimal, Decimal)>,
    remaining: Decimal,
) -> bool {
    &&& left_after(qty, levels) == Some(remaining)
    &&& forall|k: int|
        0 <= k < levels.len() ==> (#[trigger] left_after(qty, levels.take(k)) matches Some(left)
            && left@ > 0)
}

/// Looking at levels keeps a plan about its quantity.
pub proof fn lemma_walk_plans(levels: Seq<(Decimal, Decimal)>, before: LiquidityModel, qty: Decimal)
    requires
        !before.fault,
        plan_of(qty, before.levels, before.remaining),
    ensures
        ({
            let after = walked::<LiquidityPlan>(levels, before);
            !after.fault ==> plan_of(qty, after.levels, after.remaining)
        }),
    decreases levels.len(),
{
    if levels.len() > 0 {
        if levels[0].1@ == 0 {
            lemma_walk_plans(levels.skip(1), before, qty);
        } else {
            let r = LiquidityPlan::visited(before, levels[0].0, levels[0].1);
            if !r.0.fault {
                if r.0.levels != before.levels {
                    let t = r.0.levels;
                    assert(t.drop_last() =~= before.levels);
                    assert forall|k: int| 0 <= k < t.len() implies (#[trigger] left_after(
                        qty,
                        t.take(k),
                    ) matches Some(left) && left@ > 0) by {
                        if k < before.levels.len() {
                            assert(t.take(k) =~= before.levels.take(k));
                        } else {
                            assert(t.take(k) =~= before.levels);
                        }
                    }
                }
                if r.1 {
                    lemma_walk_plans(levels.skip(1), r.0, qty);
                }
            }
        }
    }
}

/// Taking the levels of a plan takes all of them: the order is left with what the plan leaves.
pub proof fn lemma_plan_is_taken<AT: AssetType, FM: FeeModel, QM>(
    venue: Venue<AT, FM, QM>,
    values: StateValues,
    order: Order,
    timestamp: i64,
    qty: Decimal,
    levels: Seq<(Decimal, Decimal)>,
    k: int,
    remaining: Decimal,
)
    requires
        0 <= k <= levels.len(),
        plan_of(qty, levels, remaining),
        left_after(qty, levels.take(k)) == Some(order.leaves_qty),
    ensures
        levels_filled(venue, values, order, timestamp, levels.skip(k)) matches Ok(after)
            ==> after.0.leaves_qty == remaining && (k < levels.len() ==> after.0.status == (
        if remaining@ > 0 {
            Status::PartiallyFilled
        } else {
            Status::Filled
        })),
    decreases levels.len() - k,
{
    if k == levels.len() {
        assert(levels.take(k) =~= levels);
    } else {
        assert(levels.skip(k)[0] == levels[k]);
        assert(levels.skip(k).skip(1) =~= levels.skip(k + 1));
        assert(levels.take(k + 1).drop_last() =~= levels.take(k));
        match order_filled(venue, values, order, timestamp, false, levels[k].0, levels[k].1) {
            Err(_) => {},
            Ok(after) => {
                if k + 1 == levels.len() {
                    assert(levels.take(k + 1) =~= levels);
                } else {
                    assert(left_after(qty, levels.take(k + 1)) matches Some(left) && left@ > 0);
                }
                lemma_plan_is_taken(
                    venue,
                    after.1,
                    after.0,
                    timestamp,
                    qty,
                    levels,
                    k + 1,
                    remaining,
                );
            },
        }
    }
}

/// An order that must be filled at once is filled as a whole or not at all: either all of it is
/// filled, or nothing is, and nothing is traded.
pub proof fn fill_or_kill_is_all_or_nothing<
    AT: AssetType,
    FM: FeeModel,
    QM: QueueModel<MD>,
    MD: MarketDepth,
>(
    venue: Venue<AT, FM, QM>,
    book: Book,
    ledger: Ledger<QM::State>,
    order: Order,
    timestamp: i64,
    validate_rule: bool,
)
    requires
        order.time_in_force == TimeInForce::FOK,
    ensures
        placed::<AT, FM, QM, MD>(venue, book, ledger, order, timestamp, validate_rule) matches Ok(
            after,
        ) ==> {
            ||| after.order.status == Status::Filled && after.order.leaves_qty@ <= 0
            ||| after.order.status == Status::Expired && after.order.leaves_qty == order.leaves_qty
                && after.order.cum_exec_qty == order.cum_exec_qty && after.ledger == ledger
        },
{
    match resolved_price(instruction_of(order), book) {
        None => {},
        Some(price) => {
            let order = Order { price, ..order };
            match planned(order, book) {
                None => {},
                Some((levels, remaining)) => {
                    let start = plan_start(order);
                    lemma_walk_plans(
                        opposite_levels(order.side, book),
                        start,
                        order.leaves_qty,
                    );
                    assert(levels.take(0) =~= Seq::empty());
                    assert(levels.skip(0) =~= levels);
                    lemma_plan_is_taken(
                        venue,
                        ledger.values,
                        order,
                        timestamp,
                        order.leaves_qty,
                        levels,
                        0,
                        remaining,
                    );
                },
            }
        },
    }
}

/// A post-only limit order never takes the market: placing it fills nothing and trades nothing.
pub proof fn post_only_orders_never_take<
    AT: AssetType,
    FM: FeeModel,
    QM: QueueModel<MD>,
    MD: MarketDepth,
>(
    venue: Venue<AT, FM, QM>,
    book: Book,
    ledger: Ledger<QM::State>,
    order: Order,
    timestamp: i64,
    validate_rule: bool,
)
    requires
        order.order_type == OrdType::Limit,
        order.time_in_force == TimeInForce::GTX,
    ensures
        placed::<AT, FM, QM, MD>(venue, book, ledger, order, timestamp, validate_rule) matches Ok(
            after,
        ) ==> after.order.cum_exec_qty == order.cum_exec_qty && after.order.leaves_qty
            == order.leaves_qty && after.ledger.values == ledger.values,
{
}

/// A trade at the price of an order fills no more than is left of the order.
pub proof fn trades_fill_at_most_what_is_left<QM: QueueModel<MD>, MD: MarketDepth>(
    queue_model: QM,
    book: Book,
    trigger: Trigger,
    queued: QueuedOrder<QM::State>,
)
    ensures
        action_of::<QM, MD>(queue_model, book, trigger, queued) matches Some(
            Action::Fill(qty, _),
        ) ==> qty@ <= queued.order.leaves_qty@,
{
}

/// A request that is refused changes nothing in the book, and is answered as rejected.
pub proof fn refused_requests_change_nothing<
    AT: AssetType,
    FM: FeeModel,
    QM: QueueModel<MD>,
    MD: MarketDepth,
>(
    venue: Venue<AT, FM, QM>,
    book: Book,
    ledger: Ledger<QM::State>,
    request: Order,
    timestamp: i64,
)
    requires
        request.req == Status::Canceled || request.req == Status::Replaced,
        !holds(ledger.orders, request.order_id as int),
    ensures
        acted::<AT, FM, QM, MD>(venue, book, ledger, request, timestamp) matches Ok(after)
            ==> after.order.req == Status::Rejected && after.ledger == ledger,
        request.req == Status::Canceled ==> acted::<AT, FM, QM, MD>(
            venue,
            book,
            ledger,
            request,
            timestamp,
        ) is Ok,
{
}

/// Every request that is received is answered once, in the order of the requests: what is sent to
/// the local side grows by one answer for each, about the order of the request, and the requests
/// that are left are those that were not yet received.
pub proof fn every_request_is_answered_once<
    AT: AssetType,
    LM: LatencyModel<Order, Order>,
    QM: QueueModel<MD>,
    MD: MarketDepth,
    FM: FeeModel,
>(
    venue: Venue<AT, FM, QM>,
    book: Book,
    counter: Counter<QM::State, LM>,
    requests: Seq<(Order, i64)>,
    timestamp: i64,
)
    requires
        orders_ok(counter.orders),
    ensures
        all_answered::<AT, LM, QM, MD, FM>(venue, book, counter, requests, timestamp) matches Ok(
            after,
        ) ==> {
            let n = requests.len() - after.1.len();
            &&& 0 <= n
            &&& after.1 == requests.skip(n)
            &&& !is_due(after.1, timestamp)
            &&& forall|i: int| 0 <= i < n ==> (#[trigger] requests[i]).1 == timestamp
            &&& after.0.to_local.len() == counter.to_local.len() + n
            &&& after.0.to_local.take(counter.to_local.len() as int) == counter.to_local
            &&& forall|i: int|
                0 <= i < n ==> answers(
                    (#[trigger] requests[i]).0,
                    after.0.to_local[counter.to_local.len() + i].0,
                    timestamp,
                )
            &&& orders_ok(after.0.orders)
        },
    decreases requests.len(),
{
    if requests.len() > 0 && is_due(requests, timestamp) {
        match answered::<AT, LM, QM, MD, FM>(venue, book, counter, requests[0].0, timestamp) {
            Err(_) => {},
            Ok(next) => {
                let rest = requests.skip(1);
                lemma_acted_answers::<AT, FM, QM, MD>(
                    venue,
                    book,
                    Ledger { orders: counter.orders, values: counter.values },
                    requests[0].0,
                    timestamp,
                );
                every_request_is_answered_once::<AT, LM, QM, MD, FM>(
                    venue,
                    book,
                    next,
                    rest,
                    timestamp,
                );
                match all_answered::<AT, LM, QM, MD, FM>(venue, book, next, rest, timestamp) {
                    Err(_) => {},
                    Ok(after) => {
                        let n = requests.len() - after.1.len();
                        let m = counter.to_local.len() as int;
                        assert(rest.skip(n - 1) =~= requests.skip(n));
                        assert(next.to_local.len() == m + 1);
                        assert(next.to_local.take(m) =~= counter.to_local);
                        assert(after.0.to_local.take(m + 1).take(m) =~= after.0.to_local.take(m));
                        assert forall|i: int| 0 <= i < n implies answers(
                            (#[trigger] requests[i]).0,
                            after.0.to_local[m + i].0,
                            timestamp,
                        ) by {
                            if i == 0 {
                                assert(after.0.to_local.take(m + 1)[m] == next.to_local[m]);
                            } else {
                                assert(rest[i - 1] == requests[i]);
                                assert(next.to_local.len() + (i - 1) == m + i);
                            }
                        }
                        assert forall|i: int| 0 <= i < n implies (#[trigger] requests[i]).1
                            == timestamp by {
                            if i > 0 {
                                assert(rest[i - 1] == requests[i]);
                            }
                        }
                    },
                }
            },
        }
    } else {
        assert(requests.skip(0) =~= requests);
        assert(counter.to_local.take(counter.to_local.len() as int) =~= counter.to_local);
    }
}

/// Whether a response is about the order of a request, and was made at a time.
pub open spec fn answers(request: Order, response: Order, timestamp: i64) -> bool {
    response.order_id == request.order_id && response.exch_timestamp == timestamp
}

/// A request is answered with its order, and leaves the orders in order.
proof fn lemma_acted_answers<
    AT: AssetType,
    FM: FeeModel,
    QM: QueueModel<MD>,
    MD: MarketDepth,
>(
    venue: Venue<AT, FM, QM>,
    book: Book,
    ledger: Ledger<QM::State>,
    request: Order,
    timestamp: i64,
)
    requires
        orders_ok(ledger.orders),
    ensures
        acted::<AT, FM, QM, MD>(venue, book, ledger, request, timestamp) matches Ok(after)
            ==> answers(request, after.order, timestamp) && orders_ok(after.ledger.orders),
{
    let order = Order { req: Status::Unset, ..request };
    lemma_placed_answers::<AT, FM, QM, MD>(venue, book, ledger, order, timestamp, true);
    let id = order.order_id as int;
    lemma_below_grows(ledger.orders, id, id);
    if holds(ledger.orders, id) {
        lemma_orders_removed(ledger.orders, below(ledger.orders, id));
        lemma_removed(ledger.orders, id);
    }
    if request.req == Status::Replaced {
        match resolved_price(instruction_of(order), book) {
            None => {},
            Some(price) => {
                let left = canceled(ledger, order, timestamp);
                let now = Order {
                    local_timestamp: order.local_timestamp,
                    price_match: order.price_match,
                    ..left.order
                };
                match order.qty.difference(now.cum_exec_qty) {
                    None => {},
                    Some(leaves_qty) => {
                        lemma_placed_answers::<AT, FM, QM, MD>(
                            venue,
                            book,
                            left.ledger,
                            Order {
                                price,
                                qty: order.qty,
                                leaves_qty,
                                status: resting_status(now),
                                ..now
                            },
                            timestamp,
                            false,
                        );
                    },
                }
            },
        }
    }
}

/// An order that is placed keeps its identifier, and leaves the orders in order.
proof fn lemma_placed_answers<
    AT: AssetType,
    FM: FeeModel,
    QM: QueueModel<MD>,
    MD: MarketDepth,
>(
    venue: Venue<AT, FM, QM>,
    book: Book,
    ledger: Ledger<QM::State>,
    order: Order,
    timestamp: i64,
    validate_rule: bool,
)
    requires
        orders_ok(ledger.orders),
    ensures
        placed::<AT, FM, QM, MD>(venue, book, ledger, order, timestamp, validate_rule) matches Ok(
            after,
        ) ==> answers(order, after.order, timestamp) && orders_ok(after.ledger.orders),
{
    match resolved_price(instruction_of(order), book) {
        None => {},
        Some(price) => {
            let order = Order { price, ..order };
            if !holds(ledger.orders, order.order_id as int) {
                lemma_orders_inserted(
                    ledger.orders,
                    order.order_id,
                    QueuedOrder {
                        order: Order {
                            status: resting_status(order),
                            exch_timestamp: timestamp,
                            ..order
                        },
                        queue_state: venue.queue_model.starting(terms_of(order), book),
                    },
                );
            }
            match planned(order, book) {
                None => {},
                Some((levels, _)) => {
                    lemma_levels_filled_terms(venue, ledger.values, order, timestamp, levels);
                },
            }
        },
    }
}

/// Taking an order out leaves the others in order.
proof fn lemma_orders_removed<S>(orders: Seq<(OrderId, QueuedOrder<S>)>, i: int)
    requires
        orders_ok(orders),
        0 <= i < orders.len(),
    ensures
        orders_ok(orders.remove(i)),
{
    let t = orders.remove(i);
    assert forall|a: int, b: int| 0 <= a < b < t.len() implies (#[trigger] t[a]).0.rank() < (
    #[trigger] t[b]).0.rank() by {
        let x = if a < i {
            a
        } else {
            a + 1
        };
        let y = if b < i {
            b
        } else {
            b + 1
        };
        assert(t[a] == orders[x] && t[b] == orders[y]);
    }
    assert forall|a: int| 0 <= a < t.len() implies (#[trigger] t[a]).1.order.order_id == t[a].0
        && t[a].1.order.is_active() by {
        let x = if a < i {
            a
        } else {
            a + 1
        };
        assert(t[a] == orders[x]);
    }
}

/// Changing an active order leaves the orders in order.
proof fn lemma_orders_updated<S>(
    orders: Seq<(OrderId, QueuedOrder<S>)>,
    i: int,
    queued: QueuedOrder<S>,
)
    requires
        orders_ok(orders),
        0 <= i < orders.len(),
        queued.order.order_id == orders[i].0,
        queued.order.is_active(),
    ensures
        orders_ok(orders.update(i, (orders[i].0, queued))),
{
    let t = orders.update(i, (orders[i].0, queued));
    assert forall|a: int, b: int| 0 <= a < b < t.len() implies (#[trigger] t[a]).0.rank() < (
    #[trigger] t[b]).0.rank() by {
        assert(orders[a].0.rank() < orders[b].0.rank());
    }
    assert forall|a: int| 0 <= a < t.len() implies (#[trigger] t[a]).1.order.order_id == t[a].0
        && t[a].1.order.is_active() by {
        assert(orders[a].1.order.order_id == orders[a].0);
    }
}

/// Filling an order leaves the orders as they are, and does not depend on them.
proof fn lemma_maker_filled_orders<
    AT: AssetType,
    LM: LatencyModel<Order, Order>,
    QM,
    FM: FeeModel,
    S,
>(
    venue: Venue<AT, FM, QM>,
    a: Counter<S, LM>,
    b: Counter<S, LM>,
    order: Order,
    timestamp: i64,
    exec_qty: Decimal,
)
    requires
        a.values == b.values,
        a.latency == b.latency,
        a.to_local == b.to_local,
    ensures
        match maker_filled(venue, a, order, timestamp, exec_qty) {
            Ok(after) => maker_filled(venue, b, order, timestamp, exec_qty) == Ok::<
                (Order, Counter<S, LM>),
                BacktestError,
            >((after.0, Counter { orders: b.orders, ..after.1 })) && after.1.orders == a.orders,
            Err(error) => maker_filled(venue, b, order, timestamp, exec_qty) == Err::<
                (Order, Counter<S, LM>),
                BacktestError,
            >(error),
        },
{
}

/// A fault among the first orders stays the first one.
proof fn lemma_swept_fault<
    AT: AssetType,
    LM: LatencyModel<Order, Order>,
    QM: QueueModel<MD>,
    MD: MarketDepth,
    FM: FeeModel,
>(
    venue: Venue<AT, FM, QM>,
    book: Book,
    trigger: Trigger,
    timestamp: i64,
    orders: Seq<(OrderId, QueuedOrder<QM::State>)>,
    k: int,
    counter: Counter<QM::State, LM>,
)
    requires
        0 <= k <= orders.len(),
    ensures
        swept::<AT, LM, QM, MD, FM>(
            venue,
            book,
            trigger,
            timestamp,
            orders.take(k),
            counter,
        ) matches Err(error) ==> swept::<AT, LM, QM, MD, FM>(
            venue,
            book,
            trigger,
            timestamp,
            orders,
            counter,
        ) == Err::<Counter<QM::State, LM>, BacktestError>(error),
    decreases orders.len(),
{
    if k == orders.len() {
        assert(orders.take(k) =~= orders);
    } else {
        assert(orders.drop_last().take(k) =~= orders.take(k));
        lemma_swept_fault::<AT, LM, QM, MD, FM>(
            venue,
            book,
            trigger,
            timestamp,
            orders.drop_last(),
            k,
            counter,
        );
    }
}

/// Where the first orders cannot be moved, all of them cannot.
proof fn lemma_requeued_fault<QM: QueueModel<MD>, MD: MarketDepth>(
    queue_model: QM,
    book: Book,
    side: Side,
    price: Decimal,
    prev_qty: Decimal,
    new_qty: Decimal,
    orders: Seq<(OrderId, QueuedOrder<QM::State>)>,
    k: int,
)
    requires
        0 <= k <= orders.len(),
    ensures
        requeued::<QM, MD>(queue_model, book, side, price, prev_qty, new_qty, orders.take(k)) is None
            ==> requeued::<QM, MD>(
            queue_model,
            book,
            side,
            price,
            prev_qty,
            new_qty,
            orders,
        ) is None,
    decreases orders.len(),
{
    if k == orders.len() {
        assert(orders.take(k) =~= orders);
    } else {
        assert(orders.drop_last().take(k) =~= orders.take(k));
        lemma_requeued_fault::<QM, MD>(
            queue_model,
            book,
            side,
            price,
            prev_qty,
            new_qty,
            orders.drop_last(),
            k,
        );
    }
}

} // verus!
