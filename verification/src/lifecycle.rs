//! The life of an order: what is asked for, what the exchange answers, and what both sides keep.
use vstd::prelude::*;

use crate::decimal::Decimal;
use crate::decimal::exact_difference;
use crate::decimal::exact_sum;
use crate::decimal::lemma_small_wholes;
use crate::error::BacktestError;
use crate::types::OrdType;
use crate::types::OrderId;
use crate::types::PriceMatch;
use crate::types::Side;
use crate::types::TimeInForce;

verus! {

/// Where an order stands.
#[derive(Clone, Copy, Debug, PartialEq, Eq, Structural)]
pub enum OrderStatus {
    /// It can be filled.
    Open,
    /// It is filled.
    Filled,
    /// It was canceled.
    Canceled,
    /// It was not accepted, or ended without being canceled.
    Expired,
}

impl OrderStatus {
    /// Whether nothing more can happen to the order.
    pub open spec fn terminal(self) -> bool {
        self != OrderStatus::Open
    }

    /// Whether nothing more can happen to the order.
    pub fn is_terminal(&self) -> (r: bool)
        ensures
            r == self.terminal(),
    {
        match self {
            OrderStatus::Open => false,
            _ => true,
        }
    }
}

/// One fill of an order.
#[derive(Clone, Copy, Debug, PartialEq)]
pub struct OrderFill {
    /// The price.
    pub price: Decimal,
    /// The quantity.
    pub qty: Decimal,
    /// When it happened on the exchange.
    pub exch_timestamp: i64,
    /// Whether the order rested in the book.
    pub is_maker: bool,
}

/// What the exchange says of an order.
#[derive(Clone, Copy, Debug, PartialEq)]
pub struct OrderState {
    /// The price.
    pub price: Decimal,
    /// How the price was found.
    pub price_match: PriceMatch,
    /// The total quantity, the filled part included.
    pub qty: Decimal,
    /// Where the order stands.
    pub status: OrderStatus,
}

/// An order that is to be placed.
#[derive(Clone, Copy, Debug, PartialEq)]
pub struct NewOrder {
    /// The order.
    pub order_id: OrderId,
    /// The price.
    pub price: Decimal,
    /// How the price is found; the exchange ignores `price` where it finds the price itself.
    pub price_match: PriceMatch,
    /// The quantity.
    pub qty: Decimal,
    /// The side.
    pub side: Side,
    /// How long the order stays.
    pub time_in_force: TimeInForce,
    /// The type.
    pub order_type: OrdType,
}

/// What kind of request was made.
#[derive(Clone, Copy, Debug, PartialEq, Eq, Structural)]
pub enum RequestKind {
    /// To place an order.
    New,
    /// To modify one.
    Modify,
    /// To cancel one.
    Cancel,
}

/// A request to the exchange.
#[derive(Clone, Copy, Debug, PartialEq)]
pub enum OrderRequest {
    /// To place an order.
    New {
        /// The request.
        request_id: u64,
        /// When it was made.
        local_timestamp: i64,
        /// The order.
        order: NewOrder,
    },
    /// To modify an order.
    Modify {
        /// The request.
        request_id: u64,
        /// When it was made.
        local_timestamp: i64,
        /// The order.
        order_id: OrderId,
        /// The new price.
        price: Decimal,
        /// How the new price is found.
        price_match: PriceMatch,
        /// The new total quantity.
        qty: Decimal,
    },
    /// To cancel an order.
    Cancel {
        /// The request.
        request_id: u64,
        /// When it was made.
        local_timestamp: i64,
        /// The order.
        order_id: OrderId,
    },
}

impl View for OrderRequest {
    type V = OrderRequest;

    open spec fn view(&self) -> OrderRequest {
        *self
    }
}

impl OrderRequest {
    /// The number of the request.
    pub open spec fn id(self) -> u64 {
        match self {
            OrderRequest::New { request_id, .. } => request_id,
            OrderRequest::Modify { request_id, .. } => request_id,
            OrderRequest::Cancel { request_id, .. } => request_id,
        }
    }

    /// When the request was made.
    pub open spec fn made_at(self) -> i64 {
        match self {
            OrderRequest::New { local_timestamp, .. } => local_timestamp,
            OrderRequest::Modify { local_timestamp, .. } => local_timestamp,
            OrderRequest::Cancel { local_timestamp, .. } => local_timestamp,
        }
    }

    /// The order that the request is about.
    pub open spec fn about(self) -> OrderId {
        match self {
            OrderRequest::New { order, .. } => order.order_id,
            OrderRequest::Modify { order_id, .. } => order_id,
            OrderRequest::Cancel { order_id, .. } => order_id,
        }
    }

    /// What kind of request it is.
    pub open spec fn sort(self) -> RequestKind {
        match self {
            OrderRequest::New { .. } => RequestKind::New,
            OrderRequest::Modify { .. } => RequestKind::Modify,
            OrderRequest::Cancel { .. } => RequestKind::Cancel,
        }
    }

    /// The number of the request.
    pub fn request_id(&self) -> (r: u64)
        ensures
            r == self.id(),
    {
        match self {
            OrderRequest::New { request_id, .. } => *request_id,
            OrderRequest::Modify { request_id, .. } => *request_id,
            OrderRequest::Cancel { request_id, .. } => *request_id,
        }
    }

    /// When the request was made.
    pub fn local_timestamp(&self) -> (r: i64)
        ensures
            r == self.made_at(),
    {
        match self {
            OrderRequest::New { local_timestamp, .. } => *local_timestamp,
            OrderRequest::Modify { local_timestamp, .. } => *local_timestamp,
            OrderRequest::Cancel { local_timestamp, .. } => *local_timestamp,
        }
    }

    /// The order that the request is about.
    pub fn order_id(&self) -> (r: OrderId)
        ensures
            r == self.about(),
    {
        match self {
            OrderRequest::New { order, .. } => order.order_id,
            OrderRequest::Modify { order_id, .. } => *order_id,
            OrderRequest::Cancel { order_id, .. } => *order_id,
        }
    }

    /// What kind of request it is.
    pub fn kind(&self) -> (r: RequestKind)
        ensures
            r == self.sort(),
    {
        match self {
            OrderRequest::New { .. } => RequestKind::New,
            OrderRequest::Modify { .. } => RequestKind::Modify,
            OrderRequest::Cancel { .. } => RequestKind::Cancel,
        }
    }
}

/// Whether a request was granted.
#[derive(Clone, Copy, Debug, PartialEq, Eq, Structural)]
pub enum RequestOutcome {
    /// It was.
    Accepted,
    /// It was not.
    Rejected,
}

/// How a request ended.
#[derive(Clone, Copy, Debug, PartialEq, Eq, Structural)]
pub struct RequestResult {
    /// The request.
    pub request_id: u64,
    /// When it was made.
    pub local_timestamp: i64,
    /// What kind of request it was.
    pub kind: RequestKind,
    /// Whether it was granted.
    pub outcome: RequestOutcome,
}

/// What the exchange tells the local side.
#[derive(Debug)]
pub struct OrderUpdate {
    /// The order.
    pub order_id: OrderId,
    /// When the exchange says so.
    pub exch_timestamp: i64,
    /// The fills that are reported.
    pub fills: Vec<OrderFill>,
    /// What the exchange says of the order.
    pub state: Option<OrderState>,
    /// How a request ended, where the update answers one.
    pub request_result: Option<RequestResult>,
}

/// What an update says.
#[verifier::ext_equal]
pub struct UpdateModel {
    /// The order.
    pub order_id: OrderId,
    /// When the exchange says so.
    pub exch_timestamp: i64,
    /// The fills that are reported.
    pub fills: Seq<OrderFill>,
    /// What the exchange says of the order.
    pub state: Option<OrderState>,
    /// How a request ended, where the update answers one.
    pub request_result: Option<RequestResult>,
}

impl View for OrderUpdate {
    type V = UpdateModel;

    open spec fn view(&self) -> UpdateModel {
        UpdateModel {
            order_id: self.order_id,
            exch_timestamp: self.exch_timestamp,
            fills: self.fills@,
            state: self.state,
            request_result: self.request_result,
        }
    }
}

/// Copies a row of fills.
pub fn copy_fills(fills: &Vec<OrderFill>) -> (r: Vec<OrderFill>)
    ensures
        r@ == fills@,
{
    copy_fills_from(fills, 0)
}

/// Copies a row of fills from a place on.
pub fn copy_fills_from(fills: &Vec<OrderFill>, from: usize) -> (r: Vec<OrderFill>)
    requires
        from <= fills@.len(),
    ensures
        r@ == fills@.skip(from as int),
        from == 0 ==> r@ == fills@,
{
    let mut copy: Vec<OrderFill> = Vec::new();
    let mut i: usize = from;
    while i < fills.len()
        invariant
            from <= i <= fills@.len(),
            copy@ =~= fills@.subrange(from as int, i as int),
        decreases fills@.len() - i,
    {
        copy.push(fills[i]);
        i = i + 1;
    }
    assert(copy@ =~= fills@.skip(from as int));
    assert(from == 0 ==> copy@ =~= fills@);
    copy
}

impl OrderUpdate {
    /// Copies the update.
    pub fn copy(&self) -> (r: OrderUpdate)
        ensures
            r@ == self@,
    {
        OrderUpdate {
            order_id: self.order_id,
            exch_timestamp: self.exch_timestamp,
            fills: copy_fills(&self.fills),
            state: self.state,
            request_result: self.request_result,
        }
    }
}

/// An order as the exchange or the local side keeps it.
#[derive(Debug)]
pub struct Order {
    /// The order.
    pub order_id: OrderId,
    /// The price.
    pub price: Decimal,
    /// How the price was found.
    pub price_match: PriceMatch,
    /// The total quantity, the filled part included.
    pub qty: Decimal,
    /// The filled quantity.
    pub filled: Decimal,
    /// The fills.
    pub fills: Vec<OrderFill>,
    /// The side.
    pub side: Side,
    /// How long the order stays.
    pub time_in_force: TimeInForce,
    /// The type.
    pub order_type: OrdType,
    /// Where the order stands.
    pub status: OrderStatus,
    /// When the exchange last said something of it.
    pub exch_timestamp: i64,
}

/// What is known of an order.
#[verifier::ext_equal]
pub struct OrderModel {
    /// The order.
    pub order_id: OrderId,
    /// The price.
    pub price: Decimal,
    /// How the price was found.
    pub price_match: PriceMatch,
    /// The total quantity, the filled part included.
    pub qty: Decimal,
    /// The filled quantity.
    pub filled: Decimal,
    /// The fills.
    pub fills: Seq<OrderFill>,
    /// The side.
    pub side: Side,
    /// How long the order stays.
    pub time_in_force: TimeInForce,
    /// The type.
    pub order_type: OrdType,
    /// Where the order stands.
    pub status: OrderStatus,
    /// When the exchange last said something of it.
    pub exch_timestamp: i64,
}

impl View for Order {
    type V = OrderModel;

    open spec fn view(&self) -> OrderModel {
        OrderModel {
            order_id: self.order_id,
            price: self.price,
            price_match: self.price_match,
            qty: self.qty,
            filled: self.filled,
            fills: self.fills@,
            side: self.side,
            time_in_force: self.time_in_force,
            order_type: self.order_type,
            status: self.status,
            exch_timestamp: self.exch_timestamp,
        }
    }
}

impl OrderModel {
    /// An order that was just made.
    pub open spec fn fresh(
        order_id: OrderId,
        price: Decimal,
        qty: Decimal,
        side: Side,
        order_type: OrdType,
        time_in_force: TimeInForce,
    ) -> OrderModel {
        OrderModel {
            order_id,
            price,
            price_match: PriceMatch::Explicit,
            qty,
            filled: Decimal::whole(0),
            fills: Seq::empty(),
            side,
            time_in_force,
            order_type,
            status: OrderStatus::Open,
            exch_timestamp: 0,
        }
    }

    /// An order that is to be placed, before anything happened to it.
    pub open spec fn placed(new: NewOrder) -> OrderModel {
        OrderModel {
            price_match: new.price_match,
            ..OrderModel::fresh(
                new.order_id,
                new.price,
                new.qty,
                new.side,
                new.order_type,
                new.time_in_force,
            )
        }
    }

    /// The order after a fill, where the filled quantity can be held.
    pub open spec fn with_fill(self, fill: OrderFill) -> Option<OrderModel> {
        match self.filled.sum(fill.qty) {
            None => None,
            Some(filled) => Some(
                OrderModel {
                    filled,
                    fills: self.fills.push(fill),
                    status: if filled@ >= self.qty@ {
                        OrderStatus::Filled
                    } else {
                        self.status
                    },
                    exch_timestamp: fill.exch_timestamp,
                    ..self
                },
            ),
        }
    }

    /// The order after a row of fills.
    pub open spec fn with_fills(self, fills: Seq<OrderFill>) -> Option<OrderModel>
        decreases fills.len(),
    {
        if fills.len() == 0 {
            Some(self)
        } else {
            match self.with_fills(fills.drop_last()) {
                None => None,
                Some(order) => order.with_fill(fills.last()),
            }
        }
    }

    /// The order after the exchange said something of it.
    pub open spec fn with_state(self, state: OrderState, exch_timestamp: i64) -> OrderModel {
        OrderModel {
            price: state.price,
            price_match: state.price_match,
            qty: state.qty,
            status: state.status,
            exch_timestamp,
            ..self
        }
    }

    /// The order after it ended, or was opened, at a time.
    pub open spec fn with_status(self, status: OrderStatus, exch_timestamp: i64) -> OrderModel {
        OrderModel { status, exch_timestamp, ..self }
    }

    /// What is said of the order.
    pub open spec fn said(self) -> OrderState {
        OrderState {
            price: self.price,
            price_match: self.price_match,
            qty: self.qty,
            status: self.status,
        }
    }

    /// The quantity that is left, where it can be held.
    pub open spec fn left(self) -> Option<Decimal> {
        self.qty.difference(self.filled)
    }
}

impl Order {
    /// Constructs an order.
    pub fn new(
        order_id: OrderId,
        price: Decimal,
        qty: Decimal,
        side: Side,
        order_type: OrdType,
        time_in_force: TimeInForce,
    ) -> (r: Order)
        ensures
            r@ == OrderModel::fresh(order_id, price, qty, side, order_type, time_in_force),
    {
        Order {
            order_id,
            price,
            price_match: PriceMatch::Explicit,
            qty,
            filled: Decimal::zero(),
            fills: Vec::new(),
            side,
            time_in_force,
            order_type,
            status: OrderStatus::Open,
            exch_timestamp: 0,
        }
    }

    /// Constructs the order that a request asks for.
    pub fn from_new(new: &NewOrder) -> (r: Order)
        ensures
            r@ == OrderModel::placed(*new),
    {
        let mut order: Order = Order::new(
            new.order_id,
            new.price,
            new.qty,
            new.side,
            new.order_type,
            new.time_in_force,
        );
        order.price_match = new.price_match;
        order
    }

    /// Copies the order.
    pub fn copy(&self) -> (r: Order)
        ensures
            r@ == self@,
    {
        Order {
            order_id: self.order_id,
            price: self.price,
            price_match: self.price_match,
            qty: self.qty,
            filled: self.filled,
            fills: copy_fills(&self.fills),
            side: self.side,
            time_in_force: self.time_in_force,
            order_type: self.order_type,
            status: self.status,
            exch_timestamp: self.exch_timestamp,
        }
    }

    /// The quantity that is left, where it can be held.
    pub fn remaining(&self) -> (r: Option<Decimal>)
        ensures
            r == self@.left(),
    {
        self.qty.checked_sub(self.filled)
    }

    /// Whether the order can be filled.
    pub fn active(&self) -> (r: bool)
        ensures
            r == (self.status == OrderStatus::Open),
    {
        self.status == OrderStatus::Open
    }

    /// What is said of the order.
    pub fn state(&self) -> (r: OrderState)
        ensures
            r == self@.said(),
    {
        OrderState {
            price: self.price,
            price_match: self.price_match,
            qty: self.qty,
            status: self.status,
        }
    }

    /// Applies a fill. There is an error where the filled quantity cannot be held, and the order
    /// stays as it was.
    pub fn apply_fill(&mut self, fill: OrderFill) -> (r: Result<(), BacktestError>)
        ensures
            match old(self)@.with_fill(fill) {
                Some(order) => r is Ok && final(self)@ == order,
                None => r == Err::<(), BacktestError>(BacktestError::Overflow) && final(self)@
                    == old(self)@,
            },
    {
        match self.filled.checked_add(fill.qty) {
            None => Err(BacktestError::Overflow),
            Some(filled) => {
                self.filled = filled;
                self.fills.push(fill);
                if self.qty.le(filled) {
                    self.status = OrderStatus::Filled;
                }
                self.exch_timestamp = fill.exch_timestamp;
                Ok(())
            },
        }
    }

    /// Takes over what the exchange says of the order.
    pub fn apply_state(&mut self, state: &OrderState, exch_timestamp: i64)
        ensures
            final(self)@ == old(self)@.with_state(*state, exch_timestamp),
    {
        self.price = state.price;
        self.price_match = state.price_match;
        self.qty = state.qty;
        self.status = state.status;
        self.exch_timestamp = exch_timestamp;
    }
}

/// A fill leaves the terms of an order as they are, and adds to its fills.
pub proof fn fills_leave_the_terms(order: OrderModel, fills: Seq<OrderFill>)
    requires
        order.with_fills(fills) is Some,
    ensures
        ({
            let after = order.with_fills(fills)->0;
            &&& after.order_id == order.order_id
            &&& after.price == order.price
            &&& after.qty == order.qty
            &&& after.side == order.side
            &&& after.fills == order.fills + fills
        }),
    decreases fills.len(),
{
    if fills.len() > 0 {
        fills_leave_the_terms(order, fills.drop_last());
        assert(order.fills + fills =~= (order.fills + fills.drop_last()).push(fills.last()));
    } else {
        assert(order.fills + fills =~= order.fills);
    }
}

/// Whatever the exchange says of an order, its fills stay: a cancellation preserves them.
pub proof fn states_preserve_fills(order: OrderModel, state: OrderState, exch_timestamp: i64)
    ensures
        order.with_state(state, exch_timestamp).fills == order.fills,
        order.with_state(state, exch_timestamp).filled == order.filled,
{
}

/// A fill adds its quantity to what was filled of an order, and its time becomes that of the order.
/// The order is filled exactly where that reaches its quantity; until then it stays as it is. This is
/// stated where the sum is not rounded.
pub proof fn orders_are_filled_when_nothing_is_left(
    order: OrderModel,
    fill: OrderFill,
    filled: Decimal,
)
    requires
        exact_sum(order.filled, fill.qty, filled),
        order.status == OrderStatus::Open,
    ensures
        order.with_fill(fill) matches Some(after) && {
            &&& after.filled@ == order.filled@ + fill.qty@
            &&& after.fills.len() == order.fills.len() + 1
            &&& after.fills.last() == fill
            &&& after.exch_timestamp == fill.exch_timestamp
            &&& after.status == OrderStatus::Filled <==> order.filled@ + fill.qty@ >= order.qty@
            &&& after.status == OrderStatus::Open <==> order.filled@ + fill.qty@ < order.qty@
            &&& after.qty == order.qty
            &&& after.price == order.price
        },
{
}

/// What is left of an order and what was filled of it make up its quantity, where the difference is
/// not rounded. Nothing was filled of a new order: all of it is left, and it is open.
pub proof fn what_is_left_and_what_is_filled_make_the_quantity(
    order: OrderModel,
    new: NewOrder,
    left: Decimal,
)
    requires
        exact_difference(order.qty, order.filled, left),
    ensures
        order.left() matches Some(qty) && qty@ + order.filled@ == order.qty@,
        OrderModel::placed(new).filled@ == 0,
        OrderModel::placed(new).fills.len() == 0,
        OrderModel::placed(new).status == OrderStatus::Open,
        OrderModel::placed(new).qty == new.qty,
        OrderModel::placed(new).price == new.price,
        OrderModel::placed(new).price_match == new.price_match,
        OrderModel::placed(new).side == new.side,
        OrderModel::placed(new).order_type == new.order_type,
        OrderModel::placed(new).time_in_force == new.time_in_force,
        OrderModel::placed(new).order_id == new.order_id,
{
    lemma_small_wholes();
}

/// What is said of an order and taken over by another copy of it gives that copy the same terms and
/// the same status, and leaves its identity, its side and what was filled of it.
pub proof fn what_is_said_is_taken_over(order: OrderModel, copy: OrderModel, timestamp: i64)
    ensures
        ({
            let after = copy.with_state(order.said(), timestamp);
            &&& after.price == order.price
            &&& after.price_match == order.price_match
            &&& after.qty == order.qty
            &&& after.status == order.status
            &&& after.exch_timestamp == timestamp
            &&& after.order_id == copy.order_id
            &&& after.side == copy.side
            &&& after.order_type == copy.order_type
            &&& after.time_in_force == copy.time_in_force
            &&& after.filled == copy.filled
            &&& after.fills == copy.fills
        }),
{
}

/// Every status but one is an end.
pub proof fn only_open_orders_go_on(status: OrderStatus)
    ensures
        !status.terminal() <==> status == OrderStatus::Open,
{
}

} // verus!
