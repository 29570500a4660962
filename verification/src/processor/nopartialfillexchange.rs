//! The exchange model without partial fills.
use vstd::prelude::*;

use crate::assettype::AssetType;
use crate::decimal::Decimal;
use crate::depth::Book;
use crate::depth::DepthUpdate;
use crate::depth::L2MarketDepth;
use crate::depth::MarketDepth;
use crate::depth::ask_update;
use crate::depth::bid_update;
use crate::error::BacktestError;
use crate::lifecycle::Order;
use crate::lifecycle::OrderFill;
use crate::lifecycle::OrderModel;
use crate::lifecycle::OrderRequest;
use crate::lifecycle::OrderState;
use crate::lifecycle::OrderStatus;
use crate::lifecycle::OrderUpdate;
use crate::lifecycle::RequestOutcome;
use crate::lifecycle::RequestResult;
use crate::lifecycle::UpdateModel;
use crate::lifecycle::copy_fills;
use crate::lifecycle::copy_fills_from;
use crate::models::fee::FeeModel;
use crate::models::latency::LatencyModel;
use crate::models::queue::OrderTerms;
use crate::models::queue::QueueModel;
use crate::order_bus::ExchToLocal;
use crate::order_bus::OrderLink;
use crate::order_bus::is_due;
use crate::order_bus::nothing_overdue;
use crate::order_bus::responded;
use crate::processor::price_match::crosses_book;
use crate::processor::price_match::is_crossing;
use crate::processor::price_match::price_satisfies_rule;
use crate::processor::price_match::resolve_price_match;
use crate::processor::price_match::resolved_price;
use crate::processor::price_match::rule_satisfied;
use crate::processor::venue::Trigger;
use crate::processor::venue::Venue;
use crate::processor::venue::best_opposite;
use crate::processor::venue::improved;
use crate::processor::venue::is_improved;
use crate::rules::TickSizeSchedule;
use crate::sorted_map::Ranked;
use crate::sorted_map::SortedMap;
use crate::sorted_map::below;
use crate::sorted_map::holds;
use crate::sorted_map::inserted;
use crate::sorted_map::lemma_below_grows;
use crate::sorted_map::lemma_inserted;
use crate::sorted_map::lemma_removed;
use crate::sorted_map::lemma_viewed_below;
use crate::sorted_map::lemma_viewed_inserted;
use crate::sorted_map::lemma_viewed_removed;
use crate::sorted_map::lookup;
use crate::sorted_map::ordered;
use crate::sorted_map::removed;
use crate::sorted_map::viewed;
use crate::state::State;
use crate::state::filled_values;
use crate::types::EXCH_ASK_DEPTH_CLEAR_EVENT;
use crate::types::EXCH_ASK_DEPTH_EVENT;
use crate::types::EXCH_ASK_DEPTH_SNAPSHOT_EVENT;
use crate::types::EXCH_BID_DEPTH_CLEAR_EVENT;
use crate::types::EXCH_BID_DEPTH_EVENT;
use crate::types::EXCH_BID_DEPTH_SNAPSHOT_EVENT;
use crate::types::EXCH_BUY_TRADE_EVENT;
use crate::types::EXCH_DEPTH_CLEAR_EVENT;
use crate::types::EXCH_EVENT;
use crate::types::EXCH_SELL_TRADE_EVENT;
use crate::types::Event;
use crate::types::OrdType;
use crate::types::OrderId;
use crate::types::PriceMatch;
use crate::types::Side;
use crate::types::StateValues;
use crate::types::TimeInForce;
use crate::types::flag_is;

verus! {

/// An order in the book, with its place in the queue.
#[derive(Debug)]
pub struct RestingOrder<S> {
    /// The order.
    pub order: Order,
    /// Its place in the queue.
    pub queue_state: S,
}

/// An order in the book, with its place in the queue.
#[verifier::ext_equal]
pub struct RestingModel<S> {
    /// The order.
    pub order: OrderModel,
    /// Its place in the queue.
    pub queue_state: S,
}

impl<S> View for RestingOrder<S> {
    type V = RestingModel<S>;

    open spec fn view(&self) -> RestingModel<S> {
        RestingModel { order: self.order@, queue_state: self.queue_state }
    }
}

/// What a queue model knows of an order.
pub open spec fn terms_of(order: OrderModel) -> OrderTerms {
    OrderTerms { order_id: order.order_id, side: order.side, price: order.price }
}

/// What a queue model knows of an order.
fn terms(order: &Order) -> (r: OrderTerms)
    ensures
        r == terms_of(order@),
{
    OrderTerms { order_id: order.order_id, side: order.side, price: order.price }
}

/// What an exchange keeps besides the book: the resting orders, what was traded, the latency model
/// and the responses under way.
#[verifier::ext_equal]
pub struct Desk<S, LM> {
    /// The resting orders, by their identifiers.
    pub orders: Seq<(OrderId, RestingModel<S>)>,
    /// What was traded.
    pub values: StateValues,
    /// The latency model.
    pub latency: LM,
    /// The responses under way.
    pub to_local: Seq<(UpdateModel, i64)>,
}

/// The resting orders and what was traded.
#[verifier::ext_equal]
pub struct Ledger<S> {
    /// The resting orders, by their identifiers.
    pub orders: Seq<(OrderId, RestingModel<S>)>,
    /// What was traded.
    pub values: StateValues,
}

/// Whether the resting orders are in order: each once, under its own identifier, and open.
pub open spec fn orders_ok<S>(orders: Seq<(OrderId, RestingModel<S>)>) -> bool {
    &&& ordered(orders)
    &&& forall|i: int|
        0 <= i < orders.len() ==> (#[trigger] orders[i]).1.order.order_id == orders[i].0
            && orders[i].1.order.status == OrderStatus::Open
}

/// The fill of all that is left of an order. A maker trades at the price of the order.
pub open spec fn full_fill(
    order: OrderModel,
    timestamp: i64,
    maker: bool,
    exec_price: Decimal,
) -> Option<OrderFill> {
    match order.left() {
        None => None,
        Some(qty) => Some(
            OrderFill {
                price: if maker {
                    order.price
                } else {
                    exec_price
                },
                qty,
                exch_timestamp: timestamp,
                is_maker: maker,
            },
        ),
    }
}

/// What filling an order does: the order, and what was traded.
pub open spec fn order_filled<AT: AssetType, FM: FeeModel, QM>(
    venue: Venue<AT, FM, QM>,
    values: StateValues,
    order: OrderModel,
    timestamp: i64,
    maker: bool,
    exec_price: Decimal,
) -> Result<(OrderModel, StateValues, OrderFill), BacktestError> {
    if order.status.terminal() {
        Err(BacktestError::InvalidOrderStatus)
    } else {
        match full_fill(order, timestamp, maker, exec_price) {
            None => Err(BacktestError::Overflow),
            Some(fill) => match (
                order.with_fill(fill),
                filled_values(values, venue.asset_type, venue.fee_model, order.side, fill),
            ) {
                (Some(after), Some(values)) => Ok((after, values, fill)),
                _ => Err(BacktestError::Overflow),
            },
        }
    }
}

/// The report of a fill of a resting order.
pub open spec fn fill_report(order: OrderModel, fill: OrderFill, timestamp: i64) -> UpdateModel {
    UpdateModel {
        order_id: order.order_id,
        exch_timestamp: timestamp,
        fills: seq![fill],
        state: Some(order.said()),
        request_result: None,
    }
}

/// What filling a resting order and reporting it does, but for the orders.
pub open spec fn maker_filled<
    AT: AssetType,
    LM: LatencyModel<OrderRequest, OrderUpdate>,
    QM,
    FM: FeeModel,
    S,
>(venue: Venue<AT, FM, QM>, desk: Desk<S, LM>, order: OrderModel, timestamp: i64) -> Result<
    Desk<S, LM>,
    BacktestError,
> {
    match order_filled(venue, desk.values, order, timestamp, true, order.price) {
        Err(error) => Err(error),
        Ok((after, values, fill)) => match responded::<OrderRequest, OrderUpdate, LM>(
            desk.latency,
            desk.to_local,
            fill_report(after, fill, timestamp),
            timestamp,
        ) {
            Err(error) => Err(error),
            Ok((latency, to_local)) => Ok(Desk { values, latency, to_local, ..desk }),
        },
    }
}

/// What becomes of a resting order.
pub enum Action<S> {
    /// It stays.
    Keep,
    /// It moves in the queue.
    Requeue(S),
    /// It is filled.
    Fill,
}

/// What becomes of a resting order at whose price a trade takes place: it moves in the queue, and is
/// filled where the trade leaves something for it.
pub open spec fn queue_action<QM: QueueModel<MD>, MD: MarketDepth>(
    queue_model: QM,
    book: Book,
    resting: RestingModel<QM::State>,
    qty: Decimal,
) -> Option<Action<QM::State>> {
    match queue_model.after_trade(terms_of(resting.order), resting.queue_state, qty, book) {
        None => None,
        Some(after) => if after.1@ > 0 {
            Some(Action::Fill)
        } else {
            Some(Action::Requeue(after.0))
        },
    }
}

/// What becomes of a resting order when something happens in the market.
pub open spec fn action_of<QM: QueueModel<MD>, MD: MarketDepth>(
    queue_model: QM,
    book: Book,
    trigger: Trigger,
    resting: RestingModel<QM::State>,
) -> Option<Action<QM::State>> {
    let order = resting.order;
    match trigger {
        Trigger::BestBid(best) => if order.side == Side::Sell && order.price@ <= best@ {
            Some(Action::Fill)
        } else {
            Some(Action::Keep)
        },
        Trigger::BestAsk(best) => if order.side == Side::Buy && order.price@ >= best@ {
            Some(Action::Fill)
        } else {
            Some(Action::Keep)
        },
        Trigger::BuyTrade(price, qty) => if order.side != Side::Sell || order.price@ > price@ {
            Some(Action::Keep)
        } else if order.price@ < price@ {
            Some(Action::Fill)
        } else {
            queue_action::<QM, MD>(queue_model, book, resting, qty)
        },
        Trigger::SellTrade(price, qty) => if order.side != Side::Buy || order.price@ < price@ {
            Some(Action::Keep)
        } else if order.price@ > price@ {
            Some(Action::Fill)
        } else {
            queue_action::<QM, MD>(queue_model, book, resting, qty)
        },
    }
}

/// What happens in the market to the first of the orders, one after the other: those that stay, and
/// what filling the others leaves.
pub open spec fn swept<
    AT: AssetType,
    LM: LatencyModel<OrderRequest, OrderUpdate>,
    QM: QueueModel<MD>,
    MD: MarketDepth,
    FM: FeeModel,
>(
    venue: Venue<AT, FM, QM>,
    book: Book,
    trigger: Trigger,
    timestamp: i64,
    orders: Seq<(OrderId, RestingModel<QM::State>)>,
    desk: Desk<QM::State, LM>,
) -> Result<Desk<QM::State, LM>, BacktestError>
    decreases orders.len(),
{
    if orders.len() == 0 {
        Ok(Desk { orders: Seq::empty(), ..desk })
    } else {
        match swept::<AT, LM, QM, MD, FM>(
            venue,
            book,
            trigger,
            timestamp,
            orders.drop_last(),
            desk,
        ) {
            Err(error) => Err(error),
            Ok(before) => {
                let (id, resting) = orders.last();
                match action_of::<QM, MD>(venue.queue_model, book, trigger, resting) {
                    None => Err(BacktestError::Overflow),
                    Some(Action::Keep) => Ok(
                        Desk { orders: before.orders.push((id, resting)), ..before },
                    ),
                    Some(Action::Requeue(queue_state)) => Ok(
                        Desk {
                            orders: before.orders.push((id, RestingModel { queue_state, ..resting })),
                            ..before
                        },
                    ),
                    Some(Action::Fill) => maker_filled(venue, before, resting.order, timestamp),
                }
            },
        }
    }
}

/// The exchange model without partial fills.
///
/// Support order types: limit orders and market orders.
///
/// **Conditions for Full Execution**
///
/// Buy order in the order book
///
/// - Your order price >= the best ask price
/// - Your order price > sell trade price
/// - Your order is at the front of the queue and your order price == sell trade price
///
/// Sell order in the order book
///
/// - Your order price <= the best bid price
/// - Your order price < buy trade price
/// - Your order is at the front of the queue && your order price == buy trade price
///
/// **Liquidity-Taking Order**
///
/// Regardless of the quantity at the best, liquidity-taking orders will be fully executed at the
/// best. Be aware that this may cause unrealistic fill simulations if you attempt to execute a
/// large quantity.
#[derive(Debug)]
pub struct NoPartialFillExchange<AT, LM, QM: QueueModel<MD>, MD: MarketDepth, FM> {
    /// The resting orders.
    pub orders: SortedMap<OrderId, RestingOrder<QM::State>>,
    /// The way to the local side.
    pub order_e2l: ExchToLocal<LM>,
    /// The book.
    pub depth: MD,
    /// What was traded.
    pub state: State<AT, FM>,
    /// The queue model.
    pub queue_model: QM,
    /// The tick sizes.
    pub tick_sizes: TickSizeSchedule,
    /// Whether snapshots may be taken.
    pub snapshot_enabled: bool,
}

impl<
    AT: AssetType,
    LM: LatencyModel<OrderRequest, OrderUpdate>,
    QM: QueueModel<MD>,
    MD: MarketDepth,
    FM: FeeModel,
> NoPartialFillExchange<AT, LM, QM, MD, FM> {
    /// The models and rules of the exchange.
    pub open spec fn venue(&self) -> Venue<AT, FM, QM> {
        Venue {
            asset_type: self.state.asset_type,
            fee_model: self.state.fee_model,
            queue_model: self.queue_model,
            changes: self.tick_sizes@,
        }
    }

    /// What the exchange keeps besides the book.
    pub open spec fn desk(&self, link: &OrderLink<OrderRequest, OrderUpdate>) -> Desk<
        QM::State,
        LM,
    > {
        Desk {
            orders: viewed(self.orders@),
            values: self.state.state_values,
            latency: self.order_e2l.order_latency,
            to_local: link.to_local@,
        }
    }

    /// The resting orders and what was traded.
    pub open spec fn ledger(&self) -> Ledger<QM::State> {
        Ledger { orders: viewed(self.orders@), values: self.state.state_values }
    }

    /// Whether the exchange is in order.
    pub open spec fn wf(&self) -> bool {
        &&& self.orders.wf()
        &&& orders_ok(viewed(self.orders@))
        &&& self.depth.wf()
        &&& self.tick_sizes.wf()
    }

    /// Whether nothing but the desk differs.
    pub open spec fn same_but_desk(&self, before: &Self) -> bool {
        self.venue() == before.venue() && self.depth == before.depth
            && self.snapshot_enabled == before.snapshot_enabled
    }

    /// Constructs an instance of `NoPartialFillExchange`.
    pub fn new(
        depth: MD,
        state: State<AT, FM>,
        queue_model: QM,
        order_e2l: ExchToLocal<LM>,
        tick_sizes: TickSizeSchedule,
    ) -> (r: Self)
        requires
            depth.wf(),
            tick_sizes.wf(),
        ensures
            r.wf(),
            r.orders@.len() == 0,
            r.depth == depth,
            r.state == state,
            r.queue_model == queue_model,
            r.order_e2l == order_e2l,
            r.tick_sizes@ == tick_sizes@,
            !r.snapshot_enabled,
    {
        NoPartialFillExchange {
            orders: SortedMap::new(),
            order_e2l,
            depth,
            state,
            queue_model,
            tick_sizes,
            snapshot_enabled: false,
        }
    }

    /// Fills an order. An order that is done stays as it is.
    fn fill(&mut self, order: &mut Order, timestamp: i64, maker: bool, exec_price: Decimal) -> (r:
        Result<OrderFill, BacktestError>)
        ensures
            final(self).same_but_desk(old(self)),
            final(self).orders == old(self).orders,
            final(self).order_e2l == old(self).order_e2l,
            match order_filled(
                old(self).venue(),
                old(self).state.state_values,
                old(order)@,
                timestamp,
                maker,
                exec_price,
            ) {
                Ok(after) => r == Ok::<OrderFill, BacktestError>(after.2) && final(order)@
                    == after.0 && final(self).state.state_values == after.1,
                Err(error) => r == Err::<OrderFill, BacktestError>(error) && (error
                    != BacktestError::Overflow ==> final(order)@ == old(order)@
                    && final(self).state.state_values == old(self).state.state_values),
            },
    {
        if order.status.is_terminal() {
            return Err(BacktestError::InvalidOrderStatus);
        }
        let qty: Decimal = match order.remaining() {
            Some(qty) => qty,
            None => {
                return Err(BacktestError::Overflow);
            },
        };
        let fill: OrderFill = OrderFill {
            price: if maker {
                order.price
            } else {
                exec_price
            },
            qty,
            exch_timestamp: timestamp,
            is_maker: maker,
        };
        match order.apply_fill(fill) {
            Ok(()) => {},
            Err(error) => {
                return Err(error);
            },
        }
        match self.state.apply_fill(order.side, &fill) {
            Ok(()) => Ok(fill),
            Err(error) => Err(error),
        }
    }

    /// Fills a resting order, which has left the book, and reports it.
    fn fill_maker(
        &mut self,
        link: &mut OrderLink<OrderRequest, OrderUpdate>,
        order: Order,
        timestamp: i64,
    ) -> (r: Result<(), BacktestError>)
        requires
            old(link).wf(),
        ensures
            final(link).wf(),
            final(link).to_exch@ == old(link).to_exch@,
            final(self).same_but_desk(old(self)),
            final(self).orders == old(self).orders,
            match maker_filled(old(self).venue(), old(self).desk(old(link)), order@, timestamp) {
                Ok(after) => r is Ok && final(self).desk(final(link)) == after,
                Err(error) => r == Err::<(), BacktestError>(error),
            },
    {
        let mut order: Order = order;
        let price: Decimal = order.price;
        let fill: OrderFill = match self.fill(&mut order, timestamp, true, price) {
            Ok(fill) => fill,
            Err(error) => {
                return Err(error);
            },
        };
        let mut fills: Vec<OrderFill> = Vec::new();
        fills.push(fill);
        let update: OrderUpdate = OrderUpdate {
            order_id: order.order_id,
            exch_timestamp: timestamp,
            fills,
            state: Some(order.state()),
            request_result: None,
        };
        assert(update@ =~= fill_report(order@, fill, timestamp));
        self.order_e2l.respond(link, update, timestamp)
    }

    /// What becomes of a resting order at whose price a trade takes place.
    fn queue_action(&self, resting: &RestingOrder<QM::State>, qty: Decimal) -> (r: Option<
        Action<QM::State>,
    >)
        requires
            self.depth.wf(),
        ensures
            r == queue_action::<QM, MD>(self.queue_model, self.depth.book(), resting@, qty),
    {
        let (queue_state, exec): (QM::State, Decimal) = self.queue_model.trade(
            &terms(&resting.order),
            resting.queue_state,
            qty,
            &self.depth,
        )?;
        if exec.is_positive() {
            Some(Action::Fill)
        } else {
            Some(Action::Requeue(queue_state))
        }
    }

    /// What becomes of a resting sell order when a buyer trades.
    fn check_if_sell_filled(
        &self,
        resting: &RestingOrder<QM::State>,
        price: Decimal,
        qty: Decimal,
    ) -> (r: Option<Action<QM::State>>)
        requires
            self.depth.wf(),
        ensures
            r == action_of::<QM, MD>(
                self.queue_model,
                self.depth.book(),
                Trigger::BuyTrade(price, qty),
                resting@,
            ),
    {
        if resting.order.side != Side::Sell || price.lt(resting.order.price) {
            Some(Action::Keep)
        } else if resting.order.price.lt(price) {
            Some(Action::Fill)
        } else {
            self.queue_action(resting, qty)
        }
    }

    /// What becomes of a resting buy order when a seller trades.
    fn check_if_buy_filled(
        &self,
        resting: &RestingOrder<QM::State>,
        price: Decimal,
        qty: Decimal,
    ) -> (r: Option<Action<QM::State>>)
        requires
            self.depth.wf(),
        ensures
            r == action_of::<QM, MD>(
                self.queue_model,
                self.depth.book(),
                Trigger::SellTrade(price, qty),
                resting@,
            ),
    {
        if resting.order.side != Side::Buy || resting.order.price.lt(price) {
            Some(Action::Keep)
        } else if price.lt(resting.order.price) {
            Some(Action::Fill)
        } else {
            self.queue_action(resting, qty)
        }
    }

    /// What becomes of a resting order when something happens in the market.
    fn action(&self, trigger: Trigger, resting: &RestingOrder<QM::State>) -> (r: Option<
        Action<QM::State>,
    >)
        requires
            self.depth.wf(),
        ensures
            r == action_of::<QM, MD>(self.queue_model, self.depth.book(), trigger, resting@),
    {
        match trigger {
            Trigger::BestBid(best) => if resting.order.side == Side::Sell
                && resting.order.price.le(best) {
                Some(Action::Fill)
            } else {
                Some(Action::Keep)
            },
            Trigger::BestAsk(best) => if resting.order.side == Side::Buy && best.le(
                resting.order.price,
            ) {
                Some(Action::Fill)
            } else {
                Some(Action::Keep)
            },
            Trigger::BuyTrade(price, qty) => self.check_if_sell_filled(resting, price, qty),
            Trigger::SellTrade(price, qty) => self.check_if_buy_filled(resting, price, qty),
        }
    }

    /// Applies what happens in the market to the resting orders, one after the other.
    fn sweep(
        &mut self,
        link: &mut OrderLink<OrderRequest, OrderUpdate>,
        trigger: Trigger,
        timestamp: i64,
    ) -> (r: Result<(), BacktestError>)
        requires
            old(self).wf(),
            old(link).wf(),
        ensures
            final(self).wf(),
            final(link).wf(),
            final(link).to_exch@ == old(link).to_exch@,
            final(self).same_but_desk(old(self)),
            match swept::<AT, LM, QM, MD, FM>(
                old(self).venue(),
                old(self).depth.book(),
                trigger,
                timestamp,
                old(self).desk(old(link)).orders,
                old(self).desk(old(link)),
            ) {
                Ok(after) => r is Ok && final(self).desk(final(link)) == after,
                Err(error) => r == Err::<(), BacktestError>(error),
            },
    {
        let ghost venue = self.venue();
        let ghost book = self.depth.book();
        let ghost start = self.desk(link);
        let ghost all = start.orders;
        let ghost mut k: int = 0;
        let mut i: usize = 0;
        assert(all.take(0) =~= Seq::empty());
        assert(all.skip(0) =~= all);
        while i < self.orders.entries.len()
            invariant
                self.wf(),
                link.wf(),
                link.to_exch@ == old(link).to_exch@,
                self.same_but_desk(old(self)),
                venue == old(self).venue(),
                book == old(self).depth.book(),
                start == old(self).desk(old(link)),
                all == start.orders,
                0 <= k <= all.len(),
                ({
                    let done = swept::<AT, LM, QM, MD, FM>(
                        venue,
                        book,
                        trigger,
                        timestamp,
                        all.take(k),
                        start,
                    );
                    &&& done is Ok
                    &&& self.desk(link).orders =~= done->Ok_0.orders + all.skip(k)
                    &&& self.desk(link).values == done->Ok_0.values
                    &&& self.desk(link).latency == done->Ok_0.latency
                    &&& self.desk(link).to_local == done->Ok_0.to_local
                    &&& i == done->Ok_0.orders.len()
                }),
            decreases self.orders@.len() - i,
        {
            let ghost before = self.desk(link);
            let ghost done = swept::<AT, LM, QM, MD, FM>(
                venue,
                book,
                trigger,
                timestamp,
                all.take(k),
                start,
            )->Ok_0;
            proof {
                assert(before.orders[i as int] == all[k]);
                assert(all.take(k + 1).drop_last() =~= all.take(k));
                assert(all.take(k + 1).last() == all[k]);
                lemma_swept_fault::<AT, LM, QM, MD, FM>(
                    venue,
                    book,
                    trigger,
                    timestamp,
                    all,
                    k + 1,
                    start,
                );
            }
            match self.action(trigger, &self.orders.entries[i].1) {
                None => {
                    return Err(BacktestError::Overflow);
                },
                Some(Action::Keep) => {
                    proof {
                        k = k + 1;
                    }
                    i = i + 1;
                    assert(self.desk(link).orders =~= done.orders.push(all[k - 1]) + all.skip(k));
                },
                Some(Action::Requeue(queue_state)) => {
                    let ghost entries = self.orders@;
                    self.orders.entries[i].1.queue_state = queue_state;
                    proof {
                        k = k + 1;
                        assert(viewed(self.orders@) =~= before.orders.update(
                            i as int,
                            (
                                before.orders[i as int].0,
                                RestingModel { queue_state, ..before.orders[i as int].1 },
                            ),
                        ));
                        lemma_orders_updated(
                            before.orders,
                            i as int,
                            RestingModel { queue_state, ..before.orders[i as int].1 },
                        );
                        lemma_viewed_below(self.orders@, 0);
                        assert(self.desk(link).orders =~= done.orders.push(
                            (all[k - 1].0, RestingModel { queue_state, ..all[k - 1].1 }),
                        ) + all.skip(k));
                    }
                    i = i + 1;
                },
                Some(Action::Fill) => {
                    let (_, resting): (OrderId, RestingOrder<QM::State>) =
                        self.orders.entries.remove(i);
                    proof {
                        k = k + 1;
                        assert(viewed(self.orders@) =~= before.orders.remove(i as int));
                        lemma_orders_removed(before.orders, i as int);
                        lemma_viewed_below(self.orders@, 0);
                        assert(before.orders.remove(i as int) =~= done.orders + all.skip(k));
                    }
                    proof {
                        lemma_maker_filled_orders(
                            venue,
                            done,
                            self.desk(link),
                            resting@.order,
                            timestamp,
                        );
                    }
                    match self.fill_maker(link, resting.order, timestamp) {
                        Ok(()) => {},
                        Err(error) => {
                            return Err(error);
                        },
                    }
                },
            }
        }
        assert(all.take(k) =~= all) by {
            assert(all.skip(k).len() == 0);
        }
        assert(all.skip(k) =~= Seq::empty());
        Ok(())
    }

    /// Moves the orders of a side at a price in the queue, after the depth there changed.
    fn on_qty_chg(&mut self, side: Side, price: Decimal, prev_qty: Decimal, new_qty: Decimal) -> (r:
        Result<(), BacktestError>)
        requires
            old(self).wf(),
        ensures
            final(self).wf(),
            final(self).same_but_desk(old(self)),
            final(self).state == old(self).state,
            final(self).order_e2l == old(self).order_e2l,
            match requeued::<QM, MD>(
                old(self).queue_model,
                old(self).depth.book(),
                side,
                price,
                prev_qty,
                new_qty,
                viewed(old(self).orders@),
            ) {
                Some(orders) => r is Ok && viewed(final(self).orders@) == orders,
                None => r == Err::<(), BacktestError>(BacktestError::Overflow),
            },
    {
        let ghost queue_model = self.queue_model;
        let ghost book = self.depth.book();
        let ghost all = viewed(self.orders@);
        let mut i: usize = 0;
        assert(all.take(0) =~= Seq::empty());
        assert(all.skip(0) =~= all);
        while i < self.orders.entries.len()
            invariant
                self.wf(),
                self.same_but_desk(old(self)),
                self.state == old(self).state,
                self.order_e2l == old(self).order_e2l,
                queue_model == old(self).queue_model,
                book == old(self).depth.book(),
                all == viewed(old(self).orders@),
                i <= all.len(),
                self.orders@.len() == all.len(),
                ({
                    let done = requeued::<QM, MD>(
                        queue_model,
                        book,
                        side,
                        price,
                        prev_qty,
                        new_qty,
                        all.take(i as int),
                    );
                    &&& done is Some
                    &&& done->0.len() == i
                    &&& viewed(self.orders@) =~= done->0 + all.skip(i as int)
                }),
            decreases self.orders@.len() - i,
        {
            let ghost before = viewed(self.orders@);
            let ghost done = requeued::<QM, MD>(
                queue_model,
                book,
                side,
                price,
                prev_qty,
                new_qty,
                all.take(i as int),
            )->0;
            proof {
                assert(before[i as int] == all[i as int]);
                assert(all.take(i + 1).drop_last() =~= all.take(i as int));
                assert(all.take(i + 1).last() == all[i as int]);
                lemma_requeued_fault::<QM, MD>(
                    queue_model,
                    book,
                    side,
                    price,
                    prev_qty,
                    new_qty,
                    all,
                    i + 1,
                );
            }
            if self.orders.entries[i].1.order.side == side && self.orders.entries[i].1.order.price
                == price {
                let order: OrderTerms = terms(&self.orders.entries[i].1.order);
                let moved: Option<QM::State> = self.queue_model.depth(
                    &order,
                    self.orders.entries[i].1.queue_state,
                    prev_qty,
                    new_qty,
                    &self.depth,
                );
                match moved {
                    None => {
                        return Err(BacktestError::Overflow);
                    },
                    Some(queue_state) => {
                        self.orders.entries[i].1.queue_state = queue_state;
                        proof {
                            assert(viewed(self.orders@) =~= before.update(
                                i as int,
                                (
                                    before[i as int].0,
                                    RestingModel { queue_state, ..before[i as int].1 },
                                ),
                            ));
                            lemma_orders_updated(
                                before,
                                i as int,
                                RestingModel { queue_state, ..before[i as int].1 },
                            );
                            lemma_viewed_below(self.orders@, 0);
                            assert(viewed(self.orders@) =~= done.push(
                                (
                                    all[i as int].0,
                                    RestingModel { queue_state, ..all[i as int].1 },
                                ),
                            ) + all.skip(i + 1));
                        }
                    },
                }
            } else {
                assert(viewed(self.orders@) =~= done.push(all[i as int]) + all.skip(i + 1));
            }
            i = i + 1;
        }
        assert(all.take(i as int) =~= all);
        assert(all.skip(i as int) =~= Seq::empty());
        Ok(())
    }

    /// Ends an order without placing it.
    fn expire(order: &mut Order, timestamp: i64)
        ensures
            final(order)@ == old(order)@.with_status(OrderStatus::Expired, timestamp),
    {
        order.status = OrderStatus::Expired;
        order.exch_timestamp = timestamp;
    }

    /// Puts an order into the book.
    fn rest_order(&mut self, order: &mut Order, timestamp: i64)
        requires
            old(self).wf(),
            !holds(viewed(old(self).orders@), old(order).order_id as int),
        ensures
            final(self).wf(),
            final(self).same_but_desk(old(self)),
            final(self).state == old(self).state,
            final(self).order_e2l == old(self).order_e2l,
            final(order)@ == old(order)@.with_status(OrderStatus::Open, timestamp),
            viewed(final(self).orders@) == inserted(
                viewed(old(self).orders@),
                old(order).order_id,
                (RestingModel {
                    order: old(order)@.with_status(OrderStatus::Open, timestamp),
                    queue_state: old(self).queue_model.starting(
                        terms_of(old(order)@),
                        old(self).depth.book(),
                    ),
                }),
            ),
    {
        let queue_state: QM::State = self.queue_model.new_order(&terms(order), &self.depth);
        order.status = OrderStatus::Open;
        order.exch_timestamp = timestamp;
        let resting: RestingOrder<QM::State> = RestingOrder { order: order.copy(), queue_state };
        let order_id: OrderId = order.order_id;
        proof {
            lemma_viewed_inserted(self.orders@, order_id, resting);
            lemma_orders_inserted(viewed(self.orders@), order_id, resting@);
        }
        self.orders.insert(order_id, resting);
    }

    /// Places an order.
    pub fn ack_new_checked(&mut self, order: &mut Order, timestamp: i64, validate_rule: bool) -> (r:
        Result<(), BacktestError>)
        requires
            old(self).wf(),
        ensures
            final(self).wf(),
            final(self).same_but_desk(old(self)),
            final(self).order_e2l == old(self).order_e2l,
            match placed::<AT, FM, QM, MD>(
                    old(self).venue(),
                    old(self).depth.book(),
                    old(self).ledger(),
                    old(order)@,
                    timestamp,
                    validate_rule,
                ) {
                    Ok(after) => r is Ok && final(order)@ == after.order && final(self).ledger()
                        == after.ledger,
                    Err(error) => {
                        &&& r == Err::<(), BacktestError>(error)
                        &&& error != BacktestError::Overflow ==> final(self).ledger()
                            == old(self).ledger()
                        &&& error.refuses() ==> final(order)@ == old(order)@
                    },
                },
    {
        proof {
            lemma_viewed_below(self.orders@, order.order_id as int);
        }
        if self.orders.contains(&order.order_id) {
            return Err(BacktestError::OrderIdExist);
        }
        if validate_rule {
            match price_satisfies_rule(&order.price_instruction(), timestamp, &self.tick_sizes) {
                Err(error) => {
                    return Err(BacktestError::TickSize(error));
                },
                Ok(false) => {
                    Self::expire(order, timestamp);
                    return Ok(());
                },
                Ok(true) => {},
            }
        }
        let price: Decimal = match resolve_price_match(&order.price_instruction(), &self.depth) {
            Some(price) => price,
            None => {
                Self::expire(order, timestamp);
                return Ok(());
            },
        };
        order.price = price;
        let best: Option<Decimal> = match order.side {
            Side::Buy => self.depth.best_ask(),
            Side::Sell => self.depth.best_bid(),
        };
        match order.order_type {
            OrdType::Limit => {
                if is_crossing(order.side, order.price, &self.depth) {
                    match order.time_in_force {
                        TimeInForce::GTX => {
                            Self::expire(order, timestamp);
                            return Ok(());
                        },
                        TimeInForce::GTC | TimeInForce::FOK | TimeInForce::IOC => {
                            // Since this always fills the full quantity, both FOK and IOC
                            // orders are also fully filled at the best price.
                            // Takes the market.
                        },
                    }
                } else {
                    match order.time_in_force {
                        TimeInForce::GTC | TimeInForce::GTX => {
                            self.rest_order(order, timestamp);
                            return Ok(());
                        },
                        TimeInForce::FOK | TimeInForce::IOC => {
                            Self::expire(order, timestamp);
                            return Ok(());
                        },
                    }
                }
            },
            OrdType::Market => {},
        }
        match best {
            Some(best) => match self.fill(order, timestamp, false, best) {
                Ok(_) => Ok(()),
                Err(error) => Err(error),
            },
            None => {
                Self::expire(order, timestamp);
                Ok(())
            },
        }
    }

    /// Places a new order, which must satisfy the tick-size rule.
    pub fn ack_new(&mut self, order: &mut Order, timestamp: i64) -> (r: Result<(), BacktestError>)
        requires
            old(self).wf(),
        ensures
            final(self).wf(),
            final(self).same_but_desk(old(self)),
            final(self).order_e2l == old(self).order_e2l,
            match placed::<AT, FM, QM, MD>(
                    old(self).venue(),
                    old(self).depth.book(),
                    old(self).ledger(),
                    old(order)@,
                    timestamp,
                    true,
                ) {
                    Ok(after) => r is Ok && final(order)@ == after.order && final(self).ledger()
                        == after.ledger,
                    Err(error) => {
                        &&& r == Err::<(), BacktestError>(error)
                        &&& error != BacktestError::Overflow ==> final(self).ledger()
                            == old(self).ledger()
                        &&& error.refuses() ==> final(order)@ == old(order)@
                    },
                },
    {
        self.ack_new_checked(order, timestamp, true)
    }

    /// Cancels an order, where there is one.
    pub fn ack_cancel(&mut self, order_id: OrderId, timestamp: i64) -> (r: Option<Order>)
        requires
            old(self).wf(),
        ensures
            final(self).wf(),
            final(self).same_but_desk(old(self)),
            final(self).state == old(self).state,
            final(self).order_e2l == old(self).order_e2l,
            viewed(final(self).orders@) == removed(viewed(old(self).orders@), order_id as int),
            match lookup(viewed(old(self).orders@), order_id as int) {
                Some(resting) => r matches Some(order) && order@ == resting.order.with_status(
                    OrderStatus::Canceled,
                    timestamp,
                ),
                None => r is None,
            },
    {
        proof {
            lemma_viewed_below(self.orders@, order_id as int);
            lemma_viewed_removed(self.orders@, order_id as int);
            if holds(viewed(self.orders@), order_id as int) {
                lemma_orders_removed(viewed(self.orders@), below(self.orders@, order_id as int));
            }
        }
        let resting: RestingOrder<QM::State> = self.orders.remove(&order_id)?;
        let mut order: Order = resting.order;
        order.status = OrderStatus::Canceled;
        order.exch_timestamp = timestamp;
        Some(order)
    }

    /// Modifies an order: the order, the fills that this led to, and whether the request is
    /// granted.
    pub fn ack_modify(
        &mut self,
        order_id: OrderId,
        price: Decimal,
        price_match: PriceMatch,
        qty: Decimal,
        timestamp: i64,
    ) -> (r: Result<(Option<Order>, Vec<OrderFill>, bool), BacktestError>)
        requires
            old(self).wf(),
        ensures
            final(self).wf(),
            final(self).same_but_desk(old(self)),
            final(self).order_e2l == old(self).order_e2l,
            match modified::<AT, FM, QM, MD>(
                    old(self).venue(),
                    old(self).depth.book(),
                    old(self).ledger(),
                    order_id,
                    price,
                    price_match,
                    qty,
                    timestamp,
                ) {
                    Ok(after) => {
                        &&& r is Ok
                        &&& order_view(r->Ok_0.0) == after.order
                        &&& r->Ok_0.1@ == after.fills
                        &&& r->Ok_0.2 == after.accepted
                        &&& final(self).ledger() == after.ledger
                    },
                    Err(error) => {
                        &&& r == Err::<(Option<Order>, Vec<OrderFill>, bool), BacktestError>(error)
                        &&& error != BacktestError::Overflow ==> final(self).ledger()
                            == old(self).ledger()
                    },
                },
    {
        proof {
            lemma_viewed_below(self.orders@, order_id as int);
        }
        let existing: Order = match self.orders.get(&order_id) {
            Some(resting) => resting.order.copy(),
            None => {
                return Ok((None, Vec::new(), false));
            },
        };
        let previous_fill_count: usize = existing.fills.len();
        let mut candidate: Order = existing.copy();
        let unchanged_price: bool = candidate.price == price;
        candidate.price = price;
        candidate.price_match = price_match;
        candidate.qty = qty;
        assert(candidate@ =~= with_terms(existing@, price, price_match, qty));
        if !unchanged_price {
            match price_satisfies_rule(
                &candidate.price_instruction(),
                timestamp,
                &self.tick_sizes,
            ) {
                Err(error) => {
                    return Err(BacktestError::TickSize(error));
                },
                Ok(false) => {
                    return Ok((Some(existing), Vec::new(), false));
                },
                Ok(true) => {},
            }
        }
        let requested_price: Decimal = match resolve_price_match(
            &candidate.price_instruction(),
            &self.depth,
        ) {
            Some(price) => price,
            None => {
                return Ok((Some(existing), Vec::new(), false));
            },
        };
        let crosses: bool = candidate.order_type == OrdType::Limit && candidate.time_in_force
            == TimeInForce::GTX && is_crossing(candidate.side, requested_price, &self.depth);
        let mut order: Order = match self.ack_cancel(order_id, timestamp) {
            Some(order) => order,
            None => {
                return Ok((None, Vec::new(), false));
            },
        };
        if (order.filled.is_positive() && qty.le(order.filled)) || crosses {
            return Ok((Some(order), Vec::new(), true));
        }
        order.price = requested_price;
        order.price_match = price_match;
        order.qty = qty;
        order.status = OrderStatus::Open;
        let ghost again = order@;
        let ghost left = self.ledger();
        proof {
            lemma_viewed_below(old(self).orders@, order_id as int);
            lemma_removed(viewed(old(self).orders@), order_id as int);
            assert(!holds(left.orders, again.order_id as int));
        }
        match self.ack_new_checked(&mut order, timestamp, false) {
            Ok(()) => {},
            Err(error) => {
                return Err(error);
            },
        }
        proof {
            lemma_placed_keeps_fills::<AT, FM, QM, MD>(
                self.venue(),
                self.depth.book(),
                left,
                again,
                timestamp,
            );
        }
        let fills: Vec<OrderFill> = copy_fills_from(&order.fills, previous_fill_count);
        Ok((Some(order), fills, true))
    }
}

/// The orders after the depth at a price changed: those of the side at that price move in the queue.
pub open spec fn requeued<QM: QueueModel<MD>, MD: MarketDepth>(
    queue_model: QM,
    book: Book,
    side: Side,
    price: Decimal,
    prev_qty: Decimal,
    new_qty: Decimal,
    orders: Seq<(OrderId, RestingModel<QM::State>)>,
) -> Option<Seq<(OrderId, RestingModel<QM::State>)>>
    decreases orders.len(),
{
    if orders.len() == 0 {
        Some(orders)
    } else {
        match requeued::<QM, MD>(
            queue_model,
            book,
            side,
            price,
            prev_qty,
            new_qty,
            orders.drop_last(),
        ) {
            None => None,
            Some(before) => {
                let (id, resting) = orders.last();
                if resting.order.side == side && resting.order.price@ == price@ {
                    match queue_model.after_depth(
                        terms_of(resting.order),
                        resting.queue_state,
                        prev_qty,
                        new_qty,
                        book,
                    ) {
                        None => None,
                        Some(queue_state) => Some(
                            before.push((id, RestingModel { queue_state, ..resting })),
                        ),
                    }
                } else {
                    Some(before.push((id, resting)))
                }
            },
        }
    }
}

/// A missing number among the first orders stays missing.
proof fn lemma_requeued_fault<QM: QueueModel<MD>, MD: MarketDepth>(
    queue_model: QM,
    book: Book,
    side: Side,
    price: Decimal,
    prev_qty: Decimal,
    new_qty: Decimal,
    orders: Seq<(OrderId, RestingModel<QM::State>)>,
    k: int,
)
    requires
        0 <= k <= orders.len(),
    ensures
        requeued::<QM, MD>(queue_model, book, side, price, prev_qty, new_qty, orders.take(k)) is None
            ==> requeued::<QM, MD>(
            queue_model,
            book,
            side,
            price,
            prev_qty,
            new_qty,
            orders,
        ) is None,
    decreases orders.len(),
{
    if k == orders.len() {
        assert(orders.take(k) =~= orders);
    } else {
        assert(orders.drop_last().take(k) =~= orders.take(k));
        lemma_requeued_fault::<QM, MD>(
            queue_model,
            book,
            side,
            price,
            prev_qty,
            new_qty,
            orders.drop_last(),
            k,
        );
    }
}

/// What placing an order leaves: the order and the ledger.
pub struct Placed<S> {
    /// The order.
    pub order: OrderModel,
    /// The ledger.
    pub ledger: Ledger<S>,
}

/// An order that ends without being placed.
pub open spec fn expired<S>(ledger: Ledger<S>, order: OrderModel, timestamp: i64) -> Placed<S> {
    Placed { order: order.with_status(OrderStatus::Expired, timestamp), ledger }
}

/// An order that takes the market at a price.
pub open spec fn taken<AT: AssetType, FM: FeeModel, QM, S>(
    venue: Venue<AT, FM, QM>,
    ledger: Ledger<S>,
    order: OrderModel,
    timestamp: i64,
    price: Decimal,
) -> Result<Placed<S>, BacktestError> {
    match order_filled(venue, ledger.values, order, timestamp, false, price) {
        Err(error) => Err(error),
        Ok(after) => Ok(Placed { order: after.0, ledger: Ledger { values: after.1, ..ledger } }),
    }
}

/// An order that comes to rest in the book.
pub open spec fn rested<AT, FM, QM: QueueModel<MD>, MD: MarketDepth>(
    venue: Venue<AT, FM, QM>,
    book: Book,
    ledger: Ledger<QM::State>,
    order: OrderModel,
    timestamp: i64,
) -> Placed<QM::State> {
    let open = order.with_status(OrderStatus::Open, timestamp);
    let resting = RestingModel {
        order: open,
        queue_state: venue.queue_model.starting(terms_of(order), book),
    };
    Placed {
        order: open,
        ledger: Ledger { orders: inserted(ledger.orders, order.order_id, resting), ..ledger },
    }
}

/// What becomes of an order whose price is known. An order that crosses the book is filled at the
/// best price, whatever its quantity, unless it is post-only. One that does not cross rests in the
/// book, unless it must be filled at once.
pub open spec fn placed_at<
    AT: AssetType,
    FM: FeeModel,
    QM: QueueModel<MD>,
    MD: MarketDepth,
>(
    venue: Venue<AT, FM, QM>,
    book: Book,
    ledger: Ledger<QM::State>,
    order: OrderModel,
    timestamp: i64,
) -> Result<Placed<QM::State>, BacktestError> {
    match order.order_type {
        OrdType::Limit => if crosses_book(order.side, order.price, book) {
            if order.time_in_force == TimeInForce::GTX {
                Ok(expired(ledger, order, timestamp))
            } else {
                taken(venue, ledger, order, timestamp, best_opposite(order.side, book)->0)
            }
        } else if order.time_in_force == TimeInForce::GTC || order.time_in_force
            == TimeInForce::GTX {
            Ok(rested::<AT, FM, QM, MD>(venue, book, ledger, order, timestamp))
        } else {
            Ok(expired(ledger, order, timestamp))
        },
        OrdType::Market => match best_opposite(order.side, book) {
            None => Ok(expired(ledger, order, timestamp)),
            Some(price) => taken(venue, ledger, order, timestamp, price),
        },
    }
}

/// What becomes of an order that reaches the exchange.
pub open spec fn placed<
    AT: AssetType,
    FM: FeeModel,
    QM: QueueModel<MD>,
    MD: MarketDepth,
>(
    venue: Venue<AT, FM, QM>,
    book: Book,
    ledger: Ledger<QM::State>,
    order: OrderModel,
    timestamp: i64,
    validate_rule: bool,
) -> Result<Placed<QM::State>, BacktestError> {
    let allowed = if validate_rule {
        rule_satisfied(order.instruction(), timestamp, venue.changes)
    } else {
        Ok(true)
    };
    if holds(ledger.orders, order.order_id as int) {
        Err(BacktestError::OrderIdExist)
    } else {
        match allowed {
            Err(error) => Err(BacktestError::TickSize(error)),
            Ok(false) => Ok(expired(ledger, order, timestamp)),
            Ok(true) => match resolved_price(order.instruction(), book) {
                None => Ok(expired(ledger, order, timestamp)),
                Some(price) => placed_at::<AT, FM, QM, MD>(
                    venue,
                    book,
                    ledger,
                    OrderModel { price, ..order },
                    timestamp,
                ),
            },
        }
    }
}

/// The answer to a request to modify an order.
#[verifier::ext_equal]
pub struct Modified<S> {
    /// The order, where there is one.
    pub order: Option<OrderModel>,
    /// The fills that the modification led to.
    pub fills: Seq<OrderFill>,
    /// Whether the request is granted.
    pub accepted: bool,
    /// The ledger.
    pub ledger: Ledger<S>,
}

/// The order with its new terms.
pub open spec fn with_terms(
    order: OrderModel,
    price: Decimal,
    price_match: PriceMatch,
    qty: Decimal,
) -> OrderModel {
    OrderModel { price, price_match, qty, ..order }
}

/// What becomes of an order that is modified and whose new price is known: it leaves the book, and
/// is placed again unless nothing is left of it or it would cross the book though it is post-only.
pub open spec fn replaced<
    AT: AssetType,
    FM: FeeModel,
    QM: QueueModel<MD>,
    MD: MarketDepth,
>(
    venue: Venue<AT, FM, QM>,
    book: Book,
    ledger: Ledger<QM::State>,
    existing: OrderModel,
    price: Decimal,
    price_match: PriceMatch,
    qty: Decimal,
    timestamp: i64,
) -> Result<Modified<QM::State>, BacktestError> {
    let left = Ledger { orders: removed(ledger.orders, existing.order_id as int), ..ledger };
    let canceled = existing.with_status(OrderStatus::Canceled, timestamp);
    let crosses = existing.order_type == OrdType::Limit && existing.time_in_force
        == TimeInForce::GTX && crosses_book(existing.side, price, book);
    if (existing.filled@ > 0 && qty@ <= existing.filled@) || crosses {
        Ok(
            Modified { order: Some(canceled), fills: Seq::empty(), accepted: true, ledger: left },
        )
    } else {
        let again = OrderModel {
            status: OrderStatus::Open,
            ..with_terms(canceled, price, price_match, qty)
        };
        match placed::<AT, FM, QM, MD>(venue, book, left, again, timestamp, false) {
            Err(error) => Err(error),
            Ok(after) => Ok(
                Modified {
                    order: Some(after.order),
                    fills: after.order.fills.skip(existing.fills.len() as int),
                    accepted: true,
                    ledger: after.ledger,
                },
            ),
        }
    }
}

/// What becomes of an order that is modified. A price that changes must satisfy the rule that is in
/// effect; a request that cannot be granted leaves the order as it is.
pub open spec fn modified<
    AT: AssetType,
    FM: FeeModel,
    QM: QueueModel<MD>,
    MD: MarketDepth,
>(
    venue: Venue<AT, FM, QM>,
    book: Book,
    ledger: Ledger<QM::State>,
    order_id: OrderId,
    price: Decimal,
    price_match: PriceMatch,
    qty: Decimal,
    timestamp: i64,
) -> Result<Modified<QM::State>, BacktestError> {
    match lookup(ledger.orders, order_id as int) {
        None => Ok(Modified { order: None, fills: Seq::empty(), accepted: false, ledger }),
        Some(resting) => {
            let existing = resting.order;
            let candidate = with_terms(existing, price, price_match, qty);
            let refused = Modified {
                order: Some(existing),
                fills: Seq::empty(),
                accepted: false,
                ledger,
            };
            let allowed = if existing.price@ != price@ {
                rule_satisfied(candidate.instruction(), timestamp, venue.changes)
            } else {
                Ok(true)
            };
            match allowed {
                Err(error) => Err(BacktestError::TickSize(error)),
                Ok(false) => Ok(refused),
                Ok(true) => match resolved_price(candidate.instruction(), book) {
                    None => Ok(refused),
                    Some(resolved) => replaced::<AT, FM, QM, MD>(
                        venue,
                        book,
                        ledger,
                        existing,
                        resolved,
                        price_match,
                        qty,
                        timestamp,
                    ),
                },
            }
        },
    }
}

/// What setting a level does: the orders at its price move in the queue, and where the best price
/// of the side improves, the orders that it reaches are filled.
pub open spec fn level_set<
    AT: AssetType,
    LM: LatencyModel<OrderRequest, OrderUpdate>,
    QM: QueueModel<MD>,
    MD: MarketDepth,
    FM: FeeModel,
>(
    venue: Venue<AT, FM, QM>,
    book: Book,
    desk: Desk<QM::State, LM>,
    side: Side,
    update: DepthUpdate,
) -> Result<Desk<QM::State, LM>, BacktestError> {
    match requeued::<QM, MD>(
        venue.queue_model,
        book,
        side,
        update.level_price,
        update.previous_qty,
        update.new_qty,
        desk.orders,
    ) {
        None => Err(BacktestError::Overflow),
        Some(orders) => {
            let moved = Desk { orders, ..desk };
            if improved(side, update.best_price, update.previous_best_price) {
                let best = update.best_price->0;
                swept::<AT, LM, QM, MD, FM>(
                    venue,
                    book,
                    match side {
                        Side::Buy => Trigger::BestBid(best),
                        Side::Sell => Trigger::BestAsk(best),
                    },
                    update.timestamp,
                    orders,
                    moved,
                )
            } else {
                Ok(moved)
            }
        },
    }
}

/// What market data does to the book and to the desk.
pub open spec fn processed<
    AT: AssetType,
    LM: LatencyModel<OrderRequest, OrderUpdate>,
    QM: QueueModel<MD>,
    MD: MarketDepth,
    FM: FeeModel,
>(
    venue: Venue<AT, FM, QM>,
    book: Book,
    desk: Desk<QM::State, LM>,
    event: Event,
) -> Result<(Book, Desk<QM::State, LM>), BacktestError> {
    if flag_is(event.ev, EXCH_BID_DEPTH_CLEAR_EVENT) {
        Ok((book.cleared(Side::Buy, Some(event.px)), desk))
    } else if flag_is(event.ev, EXCH_ASK_DEPTH_CLEAR_EVENT) {
        Ok((book.cleared(Side::Sell, Some(event.px)), desk))
    } else if flag_is(event.ev, EXCH_DEPTH_CLEAR_EVENT) {
        Ok((book.cleared(Side::Buy, None).cleared(Side::Sell, None), desk))
    } else if flag_is(event.ev, EXCH_BID_DEPTH_EVENT) || flag_is(
        event.ev,
        EXCH_BID_DEPTH_SNAPSHOT_EVENT,
    ) {
        let after = book.bid_set(event.px, event.qty, event.exch_ts);
        match level_set::<AT, LM, QM, MD, FM>(
            venue,
            after,
            desk,
            Side::Buy,
            bid_update(book, event.px, event.qty, event.exch_ts),
        ) {
            Err(error) => Err(error),
            Ok(desk) => Ok(
                (
                    if flag_is(event.ev, EXCH_BID_DEPTH_SNAPSHOT_EVENT) {
                        after.marked_ready()
                    } else {
                        after
                    },
                    desk,
                ),
            ),
        }
    } else if flag_is(event.ev, EXCH_ASK_DEPTH_EVENT) || flag_is(
        event.ev,
        EXCH_ASK_DEPTH_SNAPSHOT_EVENT,
    ) {
        let after = book.ask_set(event.px, event.qty, event.exch_ts);
        match level_set::<AT, LM, QM, MD, FM>(
            venue,
            after,
            desk,
            Side::Sell,
            ask_update(book, event.px, event.qty, event.exch_ts),
        ) {
            Err(error) => Err(error),
            Ok(desk) => Ok(
                (
                    if flag_is(event.ev, EXCH_ASK_DEPTH_SNAPSHOT_EVENT) {
                        after.marked_ready()
                    } else {
                        after
                    },
                    desk,
                ),
            ),
        }
    } else if flag_is(event.ev, EXCH_BUY_TRADE_EVENT) || flag_is(event.ev, EXCH_SELL_TRADE_EVENT) {
        match swept::<AT, LM, QM, MD, FM>(
            venue,
            book,
            if flag_is(event.ev, EXCH_BUY_TRADE_EVENT) {
                Trigger::BuyTrade(event.px, event.qty)
            } else {
                Trigger::SellTrade(event.px, event.qty)
            },
            event.exch_ts,
            desk.orders,
            desk,
        ) {
            Err(error) => Err(error),
            Ok(desk) => Ok((book, desk)),
        }
    } else {
        Ok((book, desk))
    }
}

/// What the exchange does with a request, but for the answer.
pub open spec fn acted<
    AT: AssetType,
    FM: FeeModel,
    QM: QueueModel<MD>,
    MD: MarketDepth,
>(
    venue: Venue<AT, FM, QM>,
    book: Book,
    ledger: Ledger<QM::State>,
    request: OrderRequest,
    timestamp: i64,
) -> Result<Modified<QM::State>, BacktestError> {
    match request {
        OrderRequest::New { order, .. } => match placed::<AT, FM, QM, MD>(
            venue,
            book,
            ledger,
            OrderModel::placed(order),
            timestamp,
            true,
        ) {
            Err(error) => Err(error),
            Ok(after) => Ok(
                Modified {
                    order: Some(after.order),
                    fills: after.order.fills,
                    accepted: true,
                    ledger: after.ledger,
                },
            ),
        },
        OrderRequest::Cancel { order_id, .. } => Ok(
            Modified {
                order: match lookup(ledger.orders, order_id as int) {
                    Some(resting) => Some(
                        resting.order.with_status(OrderStatus::Canceled, timestamp),
                    ),
                    None => None,
                },
                fills: Seq::empty(),
                accepted: holds(ledger.orders, order_id as int),
                ledger: Ledger { orders: removed(ledger.orders, order_id as int), ..ledger },
            },
        ),
        OrderRequest::Modify { order_id, price, price_match, qty, .. } => modified::<
            AT,
            FM,
            QM,
            MD,
        >(venue, book, ledger, order_id, price, price_match, qty, timestamp),
    }
}

/// The answer to a request.
pub open spec fn answer<S>(request: OrderRequest, after: Modified<S>, timestamp: i64) -> UpdateModel {
    UpdateModel {
        order_id: request.about(),
        exch_timestamp: timestamp,
        fills: after.fills,
        state: match after.order {
            Some(order) => Some(order.said()),
            None => None,
        },
        request_result: Some(
            RequestResult {
                request_id: request.id(),
                local_timestamp: request.made_at(),
                kind: request.sort(),
                outcome: if after.accepted {
                    RequestOutcome::Accepted
                } else {
                    RequestOutcome::Rejected
                },
            },
        ),
    }
}

/// What handling a request and answering it leaves.
pub open spec fn answered<
    AT: AssetType,
    LM: LatencyModel<OrderRequest, OrderUpdate>,
    QM: QueueModel<MD>,
    MD: MarketDepth,
    FM: FeeModel,
>(
    venue: Venue<AT, FM, QM>,
    book: Book,
    desk: Desk<QM::State, LM>,
    request: OrderRequest,
    timestamp: i64,
) -> Result<Desk<QM::State, LM>, BacktestError> {
    match acted::<AT, FM, QM, MD>(
        venue,
        book,
        Ledger { orders: desk.orders, values: desk.values },
        request,
        timestamp,
    ) {
        Err(error) => Err(error),
        Ok(after) => match responded::<OrderRequest, OrderUpdate, LM>(
            desk.latency,
            desk.to_local,
            answer(request, after, timestamp),
            timestamp,
        ) {
            Err(error) => Err(error),
            Ok((latency, to_local)) => Ok(
                Desk {
                    orders: after.ledger.orders,
                    values: after.ledger.values,
                    latency,
                    to_local,
                },
            ),
        },
    }
}

/// What handling the requests that are received at a time leaves, and the requests that are still
/// under way.
pub open spec fn all_answered<
    AT: AssetType,
    LM: LatencyModel<OrderRequest, OrderUpdate>,
    QM: QueueModel<MD>,
    MD: MarketDepth,
    FM: FeeModel,
>(
    venue: Venue<AT, FM, QM>,
    book: Book,
    desk: Desk<QM::State, LM>,
    requests: Seq<(OrderRequest, i64)>,
    timestamp: i64,
) -> Result<(Desk<QM::State, LM>, Seq<(OrderRequest, i64)>), BacktestError>
    decreases requests.len(),
{
    if requests.len() > 0 && is_due(requests, timestamp) {
        match answered::<AT, LM, QM, MD, FM>(venue, book, desk, requests[0].0, timestamp) {
            Err(error) => Err(error),
            Ok(after) => all_answered::<AT, LM, QM, MD, FM>(
                venue,
                book,
                after,
                requests.skip(1),
                timestamp,
            ),
        }
    } else {
        Ok((desk, requests))
    }
}

/// What is left when handling the requests that are received at a time ends with one that is refused:
/// what the requests in front of it leave, and the requests behind it.
pub open spec fn at_refusal<
    AT: AssetType,
    LM: LatencyModel<OrderRequest, OrderUpdate>,
    QM: QueueModel<MD>,
    MD: MarketDepth,
    FM: FeeModel,
>(
    venue: Venue<AT, FM, QM>,
    book: Book,
    desk: Desk<QM::State, LM>,
    requests: Seq<(OrderRequest, i64)>,
    timestamp: i64,
) -> (Desk<QM::State, LM>, Seq<(OrderRequest, i64)>)
    decreases requests.len(),
{
    if requests.len() > 0 && is_due(requests, timestamp) {
        match answered::<AT, LM, QM, MD, FM>(venue, book, desk, requests[0].0, timestamp) {
            Err(_) => (desk, requests.skip(1)),
            Ok(after) => at_refusal::<AT, LM, QM, MD, FM>(
                venue,
                book,
                after,
                requests.skip(1),
                timestamp,
            ),
        }
    } else {
        (desk, requests)
    }
}

impl<
    AT: AssetType,
    LM: LatencyModel<OrderRequest, OrderUpdate>,
    QM: QueueModel<MD>,
    MD: L2MarketDepth,
    FM: FeeModel,
> NoPartialFillExchange<AT, LM, QM, MD, FM> {
    /// When the exchange sees an event, where it sees it.
    pub fn event_seen_timestamp(&self, event: &Event) -> (r: Option<i64>)
        ensures
            r == (if flag_is(event.ev, EXCH_EVENT) {
                Some(event.exch_ts)
            } else {
                None
            }),
    {
        if event.is(EXCH_EVENT) {
            Some(event.exch_ts)
        } else {
            None
        }
    }

    /// Applies what setting a level does to the resting orders.
    fn on_level_set(
        &mut self,
        link: &mut OrderLink<OrderRequest, OrderUpdate>,
        side: Side,
        update: DepthUpdate,
    ) -> (r: Result<(), BacktestError>)
        requires
            old(self).wf(),
            old(link).wf(),
        ensures
            final(self).wf(),
            final(link).wf(),
            final(link).to_exch@ == old(link).to_exch@,
            final(self).same_but_desk(old(self)),
            match level_set::<AT, LM, QM, MD, FM>(
                old(self).venue(),
                old(self).depth.book(),
                old(self).desk(old(link)),
                side,
                update,
            ) {
                Ok(after) => r is Ok && final(self).desk(final(link)) == after,
                Err(error) => r == Err::<(), BacktestError>(error),
            },
    {
        match self.on_qty_chg(side, update.level_price, update.previous_qty, update.new_qty) {
            Ok(()) => {},
            Err(error) => {
                return Err(error);
            },
        }
        if is_improved(side, update.best_price, update.previous_best_price) {
            if let Some(best) = update.best_price {
                let trigger: Trigger = match side {
                    Side::Buy => Trigger::BestBid(best),
                    Side::Sell => Trigger::BestAsk(best),
                };
                return self.sweep(link, trigger, update.timestamp);
            }
        }
        Ok(())
    }

    /// Process an event and advance the state of the exchange.
    pub fn process(&mut self, link: &mut OrderLink<OrderRequest, OrderUpdate>, event: &Event) -> (r:
        Result<(), BacktestError>)
        requires
            old(self).wf(),
            old(link).wf(),
        ensures
            final(self).wf(),
            final(link).wf(),
            final(link).to_exch@ == old(link).to_exch@,
            final(self).venue() == old(self).venue(),
            final(self).snapshot_enabled == old(self).snapshot_enabled,
            match processed::<AT, LM, QM, MD, FM>(
                old(self).venue(),
                old(self).depth.book(),
                old(self).desk(old(link)),
                *event,
            ) {
                Ok(after) => r is Ok && final(self).depth.book() == after.0
                    && final(self).desk(final(link)) == after.1,
                Err(error) => r == Err::<(), BacktestError>(error),
            },
    {
        if event.is(EXCH_BID_DEPTH_CLEAR_EVENT) {
            self.depth.clear_depth(Side::Buy, Some(event.px));
        } else if event.is(EXCH_ASK_DEPTH_CLEAR_EVENT) {
            self.depth.clear_depth(Side::Sell, Some(event.px));
        } else if event.is(EXCH_DEPTH_CLEAR_EVENT) {
            self.depth.clear_depth(Side::Buy, None);
            self.depth.clear_depth(Side::Sell, None);
        } else if event.is(EXCH_BID_DEPTH_EVENT) || event.is(EXCH_BID_DEPTH_SNAPSHOT_EVENT) {
            let update: DepthUpdate = self.depth.update_bid_depth(
                event.px,
                event.qty,
                event.exch_ts,
            );
            match self.on_level_set(link, Side::Buy, update) {
                Ok(()) => {},
                Err(error) => {
                    return Err(error);
                },
            }
            if event.is(EXCH_BID_DEPTH_SNAPSHOT_EVENT) {
                self.depth.mark_depth_ready();
            }
        } else if event.is(EXCH_ASK_DEPTH_EVENT) || event.is(EXCH_ASK_DEPTH_SNAPSHOT_EVENT) {
            let update: DepthUpdate = self.depth.update_ask_depth(
                event.px,
                event.qty,
                event.exch_ts,
            );
            match self.on_level_set(link, Side::Sell, update) {
                Ok(()) => {},
                Err(error) => {
                    return Err(error);
                },
            }
            if event.is(EXCH_ASK_DEPTH_SNAPSHOT_EVENT) {
                self.depth.mark_depth_ready();
            }
        } else if event.is(EXCH_BUY_TRADE_EVENT) {
            return self.sweep(link, Trigger::BuyTrade(event.px, event.qty), event.exch_ts);
        } else if event.is(EXCH_SELL_TRADE_EVENT) {
            return self.sweep(link, Trigger::SellTrade(event.px, event.qty), event.exch_ts);
        }
        Ok(())
    }

    /// Does what a request asks for: the order, the fills and whether the request is granted.
    fn act(&mut self, request: &OrderRequest, timestamp: i64) -> (r: Result<
        (Option<Order>, Vec<OrderFill>, bool),
        BacktestError,
    >)
        requires
            old(self).wf(),
        ensures
            final(self).wf(),
            final(self).same_but_desk(old(self)),
            final(self).order_e2l == old(self).order_e2l,
            match acted::<AT, FM, QM, MD>(
                old(self).venue(),
                old(self).depth.book(),
                old(self).ledger(),
                *request,
                timestamp,
            ) {
                Ok(after) => {
                    &&& r is Ok
                    &&& order_view(r->Ok_0.0) == after.order
                    &&& r->Ok_0.1@ == after.fills
                    &&& r->Ok_0.2 == after.accepted
                    &&& final(self).ledger() == after.ledger
                },
                Err(error) => {
                    &&& r == Err::<(Option<Order>, Vec<OrderFill>, bool), BacktestError>(error)
                    &&& error.refuses() ==> final(self).ledger() == old(self).ledger()
                },
            },
    {
        match request {
            OrderRequest::New { order: new, .. } => {
                let mut order: Order = Order::from_new(new);
                match self.ack_new(&mut order, timestamp) {
                    Ok(()) => {},
                    Err(error) => {
                        return Err(error);
                    },
                }
                let fills: Vec<OrderFill> = copy_fills(&order.fills);
                Ok((Some(order), fills, true))
            },
            OrderRequest::Cancel { order_id, .. } => {
                let order: Option<Order> = self.ack_cancel(*order_id, timestamp);
                let accepted: bool = order.is_some();
                Ok((order, Vec::new(), accepted))
            },
            OrderRequest::Modify { order_id, price, price_match, qty, .. } => self.ack_modify(
                *order_id,
                *price,
                *price_match,
                *qty,
                timestamp,
            ),
        }
    }

    /// Handles a request and answers it.
    fn handle(
        &mut self,
        link: &mut OrderLink<OrderRequest, OrderUpdate>,
        request: OrderRequest,
        timestamp: i64,
    ) -> (r: Result<(), BacktestError>)
        requires
            old(self).wf(),
            old(link).wf(),
        ensures
            final(self).wf(),
            final(link).wf(),
            final(link).to_exch@ == old(link).to_exch@,
            final(self).same_but_desk(old(self)),
            match answered::<AT, LM, QM, MD, FM>(
                old(self).venue(),
                old(self).depth.book(),
                old(self).desk(old(link)),
                request,
                timestamp,
            ) {
                Ok(after) => r is Ok && final(self).desk(final(link)) == after,
                Err(error) => r == Err::<(), BacktestError>(error) && (error.refuses()
                    ==> final(self).desk(final(link)) == old(self).desk(old(link))),
            },
    {
        let (order, fills, accepted): (Option<Order>, Vec<OrderFill>, bool) = match self.act(
            &request,
            timestamp,
        ) {
            Ok(done) => done,
            Err(error) => {
                return Err(error);
            },
        };
        let state: Option<OrderState> = match &order {
            Some(order) => Some(order.state()),
            None => None,
        };
        let update: OrderUpdate = OrderUpdate {
            order_id: request.order_id(),
            exch_timestamp: timestamp,
            fills,
            state,
            request_result: Some(
                RequestResult {
                    request_id: request.request_id(),
                    local_timestamp: request.local_timestamp(),
                    kind: request.kind(),
                    outcome: if accepted {
                        RequestOutcome::Accepted
                    } else {
                        RequestOutcome::Rejected
                    },
                },
            ),
        };
        self.order_e2l.respond(link, update, timestamp)
    }

    /// Processes the requests that are received at `timestamp`. This is invoked when the
    /// simulation reaches the receipt timestamp.
    pub fn process_recv_order(
        &mut self,
        link: &mut OrderLink<OrderRequest, OrderUpdate>,
        timestamp: i64,
    ) -> (r: Result<bool, BacktestError>)
        requires
            old(self).wf(),
            old(link).wf(),
            nothing_overdue(old(link).to_exch@, timestamp),
        ensures
            final(self).wf(),
            final(link).wf(),
            final(self).same_but_desk(old(self)),
            match all_answered::<AT, LM, QM, MD, FM>(
                old(self).venue(),
                old(self).depth.book(),
                old(self).desk(old(link)),
                old(link).to_exch@,
                timestamp,
            ) {
                Ok(after) => r == Ok::<bool, BacktestError>(false) && final(self).desk(final(link))
                    == after.0 && final(link).to_exch@ == after.1,
                Err(error) => r == Err::<bool, BacktestError>(error) && (error.refuses() ==> (
                    final(self).desk(final(link)),
                    final(link).to_exch@,
                ) == at_refusal::<AT, LM, QM, MD, FM>(
                    old(self).venue(),
                    old(self).depth.book(),
                    old(self).desk(old(link)),
                    old(link).to_exch@,
                    timestamp,
                )),
            },
    {
        let ghost venue = self.venue();
        let ghost book = self.depth.book();
        let ghost expected = all_answered::<AT, LM, QM, MD, FM>(
            venue,
            book,
            self.desk(link),
            link.to_exch@,
            timestamp,
        );
        let ghost stop = at_refusal::<AT, LM, QM, MD, FM>(
            venue,
            book,
            self.desk(link),
            link.to_exch@,
            timestamp,
        );
        loop
            invariant_except_break
                expected == all_answered::<AT, LM, QM, MD, FM>(
                    venue,
                    book,
                    self.desk(link),
                    link.to_exch@,
                    timestamp,
                ),
                stop == at_refusal::<AT, LM, QM, MD, FM>(
                    venue,
                    book,
                    self.desk(link),
                    link.to_exch@,
                    timestamp,
                ),
            invariant
                self.wf(),
                link.wf(),
                nothing_overdue(link.to_exch@, timestamp),
                self.same_but_desk(old(self)),
                venue == old(self).venue(),
                book == old(self).depth.book(),
                expected == all_answered::<AT, LM, QM, MD, FM>(
                    old(self).venue(),
                    old(self).depth.book(),
                    old(self).desk(old(link)),
                    old(link).to_exch@,
                    timestamp,
                ),
                stop == at_refusal::<AT, LM, QM, MD, FM>(
                    old(self).venue(),
                    old(self).depth.book(),
                    old(self).desk(old(link)),
                    old(link).to_exch@,
                    timestamp,
                ),
            ensures
                expected == Ok::<
                    (Desk<QM::State, LM>, Seq<(OrderRequest, i64)>),
                    BacktestError,
                >((self.desk(link), link.to_exch@)),
            decreases link.to_exch@.len(),
        {
            match self.order_e2l.receive(link, timestamp) {
                Some(request) => {
                    match self.handle(link, request, timestamp) {
                        Ok(()) => {},
                        Err(error) => {
                            return Err(error);
                        },
                    }
                },
                None => {
                    break ;
                },
            }
        }
        Ok(false)
    }

    /// Returns the foremost timestamp at which a request is to be received by the exchange.
    pub fn earliest_recv_order_timestamp(&self, link: &OrderLink<OrderRequest, OrderUpdate>) -> (r:
        i64)
        ensures
            r == (if link.to_exch@.len() == 0 {
                i64::MAX
            } else {
                link.to_exch@[0].1
            }),
    {
        match self.order_e2l.earliest_recv_order_timestamp(link) {
            Some(timestamp) => timestamp,
            None => i64::MAX,
        }
    }

    /// Returns the foremost timestamp at which a response sent by the exchange is to be received by
    /// the local side.
    pub fn earliest_send_order_timestamp(&self, link: &OrderLink<OrderRequest, OrderUpdate>) -> (r:
        i64)
        ensures
            r == (if link.to_local@.len() == 0 {
                i64::MAX
            } else {
                link.to_local@[0].1
            }),
    {
        match self.order_e2l.earliest_send_order_timestamp(link) {
            Some(timestamp) => timestamp,
            None => i64::MAX,
        }
    }
}

/// Taking an order out leaves the others in order.
proof fn lemma_orders_removed<S>(orders: Seq<(OrderId, RestingModel<S>)>, i: int)
    requires
        orders_ok(orders),
        0 <= i < orders.len(),
    ensures
        orders_ok(orders.remove(i)),
{
    let t = orders.remove(i);
    assert forall|a: int, b: int| 0 <= a < b < t.len() implies (#[trigger] t[a]).0.rank() < (
    #[trigger] t[b]).0.rank() by {
        let x = if a < i {
            a
        } else {
            a + 1
        };
        let y = if b < i {
            b
        } else {
            b + 1
        };
        assert(t[a] == orders[x] && t[b] == orders[y]);
    }
    assert forall|a: int| 0 <= a < t.len() implies (#[trigger] t[a]).1.order.order_id == t[a].0
        && t[a].1.order.status == OrderStatus::Open by {
        let x = if a < i {
            a
        } else {
            a + 1
        };
        assert(t[a] == orders[x]);
    }
}

/// Moving an order in the queue leaves the orders in order.
proof fn lemma_orders_updated<S>(
    orders: Seq<(OrderId, RestingModel<S>)>,
    i: int,
    resting: RestingModel<S>,
)
    requires
        orders_ok(orders),
        0 <= i < orders.len(),
        resting.order == orders[i].1.order,
    ensures
        orders_ok(orders.update(i, (orders[i].0, resting))),
{
    let t = orders.update(i, (orders[i].0, resting));
    assert forall|a: int, b: int| 0 <= a < b < t.len() implies (#[trigger] t[a]).0.rank() < (
    #[trigger] t[b]).0.rank() by {
        assert(orders[a].0.rank() < orders[b].0.rank());
    }
    assert forall|a: int| 0 <= a < t.len() implies (#[trigger] t[a]).1.order.order_id == t[a].0
        && t[a].1.order.status == OrderStatus::Open by {
        assert(orders[a].1.order.order_id == orders[a].0);
    }
}

/// Filling an order leaves the other orders as they are.
proof fn lemma_maker_filled_orders<
    AT: AssetType,
    LM: LatencyModel<OrderRequest, OrderUpdate>,
    QM,
    FM: FeeModel,
    S,
>(
    venue: Venue<AT, FM, QM>,
    a: Desk<S, LM>,
    b: Desk<S, LM>,
    order: OrderModel,
    timestamp: i64,
)
    requires
        a.values == b.values,
        a.latency == b.latency,
        a.to_local == b.to_local,
    ensures
        match maker_filled(venue, a, order, timestamp) {
            Ok(after) => maker_filled(venue, b, order, timestamp) == Ok::<Desk<S, LM>, BacktestError>(
                Desk { orders: b.orders, ..after },
            ) && after.orders == a.orders,
            Err(error) => maker_filled(venue, b, order, timestamp) == Err::<
                Desk<S, LM>,
                BacktestError,
            >(error),
        },
{
}

/// A fault among the first orders stays the first one.
proof fn lemma_swept_fault<
    AT: AssetType,
    LM: LatencyModel<OrderRequest, OrderUpdate>,
    QM: QueueModel<MD>,
    MD: MarketDepth,
    FM: FeeModel,
>(
    venue: Venue<AT, FM, QM>,
    book: Book,
    trigger: Trigger,
    timestamp: i64,
    orders: Seq<(OrderId, RestingModel<QM::State>)>,
    k: int,
    desk: Desk<QM::State, LM>,
)
    requires
        0 <= k <= orders.len(),
    ensures
        swept::<AT, LM, QM, MD, FM>(venue, book, trigger, timestamp, orders.take(k), desk) matches Err(
            error,
        ) ==> swept::<AT, LM, QM, MD, FM>(venue, book, trigger, timestamp, orders, desk) == Err::<
            Desk<QM::State, LM>,
            BacktestError,
        >(error),
    decreases orders.len(),
{
    if k == orders.len() {
        assert(orders.take(k) =~= orders);
    } else {
        assert(orders.drop_last().take(k) =~= orders.take(k));
        lemma_swept_fault::<AT, LM, QM, MD, FM>(
            venue,
            book,
            trigger,
            timestamp,
            orders.drop_last(),
            k,
            desk,
        );
    }
}

/// The view of an order, where there is one.
pub open spec fn order_view(order: Option<Order>) -> Option<OrderModel> {
    match order {
        Some(order) => Some(order@),
        None => None,
    }
}

/// Putting an open order in leaves the orders in order.
proof fn lemma_orders_inserted<S>(
    orders: Seq<(OrderId, RestingModel<S>)>,
    order_id: OrderId,
    resting: RestingModel<S>,
)
    requires
        orders_ok(orders),
        !holds(orders, order_id as int),
        resting.order.order_id == order_id,
        resting.order.status == OrderStatus::Open,
    ensures
        orders_ok(inserted(orders, order_id, resting)),
{
    lemma_inserted(orders, order_id, resting);
    lemma_below_grows(orders, order_id as int, order_id as int);
    let t = inserted(orders, order_id, resting);
    let n = below(orders, order_id as int);
    assert forall|a: int| 0 <= a < t.len() implies (#[trigger] t[a]).1.order.order_id == t[a].0
        && t[a].1.order.status == OrderStatus::Open by {
        if a < n {
            assert(t[a] == orders[a]);
        } else if a > n {
            assert(t[a] == orders[a - 1]);
        }
    }
}

/// Placing an order adds to its fills at most.
proof fn lemma_placed_keeps_fills<
    AT: AssetType,
    FM: FeeModel,
    QM: QueueModel<MD>,
    MD: MarketDepth,
>(
    venue: Venue<AT, FM, QM>,
    book: Book,
    ledger: Ledger<QM::State>,
    order: OrderModel,
    timestamp: i64,
)
    ensures
        placed::<AT, FM, QM, MD>(venue, book, ledger, order, timestamp, false) matches Ok(after)
            ==> after.order.fills.len() >= order.fills.len(),
{
}

/// A post-only limit order never takes the market: placing it fills nothing and trades nothing.
pub proof fn post_only_orders_never_take<
    AT: AssetType,
    FM: FeeModel,
    QM: QueueModel<MD>,
    MD: MarketDepth,
>(
    venue: Venue<AT, FM, QM>,
    book: Book,
    ledger: Ledger<QM::State>,
    order: OrderModel,
    timestamp: i64,
    validate_rule: bool,
)
    requires
        order.order_type == OrdType::Limit,
        order.time_in_force == TimeInForce::GTX,
    ensures
        placed::<AT, FM, QM, MD>(venue, book, ledger, order, timestamp, validate_rule) matches Ok(
            after,
        ) ==> after.order.fills == order.fills && after.order.filled == order.filled
            && after.ledger.values == ledger.values,
{
}

/// An order is never filled in part: a fill takes exactly what is left of the order, and ends it
/// where the sum of its fills is exact.
pub proof fn orders_are_filled_whole<AT: AssetType, FM: FeeModel, QM>(
    venue: Venue<AT, FM, QM>,
    values: StateValues,
    order: OrderModel,
    timestamp: i64,
    maker: bool,
    exec_price: Decimal,
)
    ensures
        order_filled(venue, values, order, timestamp, maker, exec_price) matches Ok(after)
            ==> Some(after.2.qty) == order.left() && after.0.fills == order.fills.push(after.2)
            && Some(after.0.filled) == order.filled.sum(after.2.qty),
{
}

/// A request to modify an order that is refused changes nothing, and is answered with the order as
/// it is.
pub proof fn refused_modifications_change_nothing<
    AT: AssetType,
    FM: FeeModel,
    QM: QueueModel<MD>,
    MD: MarketDepth,
>(
    venue: Venue<AT, FM, QM>,
    book: Book,
    ledger: Ledger<QM::State>,
    order_id: OrderId,
    price: Decimal,
    price_match: PriceMatch,
    qty: Decimal,
    timestamp: i64,
)
    ensures
        modified::<AT, FM, QM, MD>(
            venue,
            book,
            ledger,
            order_id,
            price,
            price_match,
            qty,
            timestamp,
        ) matches Ok(after) ==> !after.accepted ==> after.ledger == ledger && after.fills
            == Seq::<OrderFill>::empty() && after.order == match lookup(
            ledger.orders,
            order_id as int,
        ) {
            Some(resting) => Some(resting.order),
            None => None,
        },
{
}

/// Every request that is received is answered once, in the order of the requests: what is sent to
/// the local side grows by one answer for each, and the requests that are left are those that were
/// not yet received.
pub proof fn every_request_is_answered_once<
    AT: AssetType,
    LM: LatencyModel<OrderRequest, OrderUpdate>,
    QM: QueueModel<MD>,
    MD: MarketDepth,
    FM: FeeModel,
>(
    venue: Venue<AT, FM, QM>,
    book: Book,
    desk: Desk<QM::State, LM>,
    requests: Seq<(OrderRequest, i64)>,
    timestamp: i64,
)
    ensures
        all_answered::<AT, LM, QM, MD, FM>(venue, book, desk, requests, timestamp) matches Ok(after)
            ==> {
            let n = requests.len() - after.1.len();
            &&& 0 <= n
            &&& after.1 == requests.skip(n)
            &&& !is_due(after.1, timestamp)
            &&& forall|i: int| 0 <= i < n ==> (#[trigger] requests[i]).1 == timestamp
            &&& after.0.to_local.len() == desk.to_local.len() + n
            &&& after.0.to_local.take(desk.to_local.len() as int) == desk.to_local
            &&& forall|i: int|
                0 <= i < n ==> answers(
                    (#[trigger] requests[i]).0,
                    after.0.to_local[desk.to_local.len() + i].0,
                    timestamp,
                )
        },
    decreases requests.len(),
{
    if requests.len() > 0 && is_due(requests, timestamp) {
        match answered::<AT, LM, QM, MD, FM>(venue, book, desk, requests[0].0, timestamp) {
            Err(_) => {},
            Ok(next) => {
                let rest = requests.skip(1);
                every_request_is_answered_once::<AT, LM, QM, MD, FM>(
                    venue,
                    book,
                    next,
                    rest,
                    timestamp,
                );
                match all_answered::<AT, LM, QM, MD, FM>(venue, book, next, rest, timestamp) {
                    Err(_) => {},
                    Ok(after) => {
                        let n = requests.len() - after.1.len();
                        let m = desk.to_local.len() as int;
                        assert(rest.skip(n - 1) =~= requests.skip(n));
                        assert(next.to_local.len() == m + 1);
                        assert(next.to_local.take(m) =~= desk.to_local);
                        assert(after.0.to_local.take(m + 1).take(m) =~= after.0.to_local.take(m));
                        assert forall|i: int| 0 <= i < n implies answers(
                            (#[trigger] requests[i]).0,
                            after.0.to_local[m + i].0,
                            timestamp,
                        ) by {
                            if i == 0 {
                                assert(after.0.to_local.take(m + 1)[m] == next.to_local[m]);
                            } else {
                                assert(rest[i - 1] == requests[i]);
                                assert(next.to_local.len() + (i - 1) == m + i);
                            }
                        }
                        assert forall|i: int| 0 <= i < n implies (#[trigger] requests[i]).1
                            == timestamp by {
                            if i > 0 {
                                assert(rest[i - 1] == requests[i]);
                            }
                        }
                    },
                }
            },
        }
    } else {
        assert(requests.skip(0) =~= requests);
        assert(desk.to_local.take(desk.to_local.len() as int) =~= desk.to_local);
    }
}

/// Whether an update is the answer to a request.
pub open spec fn answers(request: OrderRequest, update: UpdateModel, timestamp: i64) -> bool {
    &&& update.order_id == request.about()
    &&& update.exch_timestamp == timestamp
    &&& update.request_result matches Some(result) && result.request_id == request.id()
        && result.local_timestamp == request.made_at() && result.kind == request.sort()
}

/// What happens in the market leaves alone the orders that it does not reach: an order that is to
/// stay is still there, unchanged.
pub proof fn unreached_orders_stay<
    AT: AssetType,
    LM: LatencyModel<OrderRequest, OrderUpdate>,
    QM: QueueModel<MD>,
    MD: MarketDepth,
    FM: FeeModel,
>(
    venue: Venue<AT, FM, QM>,
    book: Book,
    trigger: Trigger,
    timestamp: i64,
    orders: Seq<(OrderId, RestingModel<QM::State>)>,
    desk: Desk<QM::State, LM>,
    i: int,
)
    requires
        0 <= i < orders.len(),
        action_of::<QM, MD>(venue.queue_model, book, trigger, orders[i].1) == Some(
            Action::<QM::State>::Keep,
        ),
    ensures
        swept::<AT, LM, QM, MD, FM>(venue, book, trigger, timestamp, orders, desk) matches Ok(after)
            ==> after.orders.contains(orders[i]),
    decreases orders.len(),
{
    match swept::<AT, LM, QM, MD, FM>(venue, book, trigger, timestamp, orders, desk) {
        Err(_) => {},
        Ok(after) => {
            let before = swept::<AT, LM, QM, MD, FM>(
                venue,
                book,
                trigger,
                timestamp,
                orders.drop_last(),
                desk,
            )->Ok_0;
            if i == orders.len() - 1 {
                assert(after.orders.last() == orders[i]);
            } else {
                assert(orders.drop_last()[i] == orders[i]);
                unreached_orders_stay::<AT, LM, QM, MD, FM>(
                    venue,
                    book,
                    trigger,
                    timestamp,
                    orders.drop_last(),
                    desk,
                    i,
                );
                let k = choose|k: int|
                    0 <= k < before.orders.len() && before.orders[k] == orders[i];
                assert(after.orders[k] == orders[i]);
            }
        },
    }
}

} // verus!
