//! Events, orders and the other values that the simulation exchanges.
use vstd::prelude::*;

use crate::decimal::Decimal;
use crate::decimal::lemma_small_wholes;

verus! {

/// Indicates a buy, with specific meaning that can vary depending on the situation. For example,
/// when combined with a depth event, it means a bid-side event, while when combined with a trade
/// event, it means that the trade initiator is a buyer.
pub const BUY_EVENT: u64 = 0x2000_0000;

/// Indicates a sell, with specific meaning that can vary depending on the situation. For example,
/// when combined with a depth event, it means an ask-side event, while when combined with a trade
/// event, it means that the trade initiator is a seller.
pub const SELL_EVENT: u64 = 0x1000_0000;

/// Indicates that the market depth is changed.
pub const DEPTH_EVENT: u64 = 1;

/// Indicates that a trade occurs in the market.
pub const TRADE_EVENT: u64 = 2;

/// Indicates that the market depth is cleared.
pub const DEPTH_CLEAR_EVENT: u64 = 3;

/// Indicates that the market depth snapshot is received.
pub const DEPTH_SNAPSHOT_EVENT: u64 = 4;

/// Indicates that the best bid and best ask update event is received.
pub const DEPTH_BBO_EVENT: u64 = 5;

/// Indicates that it is a valid event to be handled by the exchange processor at the exchange
/// timestamp.
pub const EXCH_EVENT: u64 = 0x8000_0000;

/// Indicates that it is a valid event to be handled by the local processor at the local timestamp.
pub const LOCAL_EVENT: u64 = 0x4000_0000;

/// Represents a combination of [`DEPTH_CLEAR_EVENT`], and [`LOCAL_EVENT`].
pub const LOCAL_DEPTH_CLEAR_EVENT: u64 = DEPTH_CLEAR_EVENT | LOCAL_EVENT;

/// Represents a combination of [`DEPTH_CLEAR_EVENT`], and [`EXCH_EVENT`].
pub const EXCH_DEPTH_CLEAR_EVENT: u64 = DEPTH_CLEAR_EVENT | EXCH_EVENT;

/// Represents a combination of a [`DEPTH_EVENT`], [`BUY_EVENT`], and [`LOCAL_EVENT`].
pub const LOCAL_BID_DEPTH_EVENT: u64 = DEPTH_EVENT | BUY_EVENT | LOCAL_EVENT;

/// Represents a combination of [`DEPTH_EVENT`], [`SELL_EVENT`], and [`LOCAL_EVENT`].
pub const LOCAL_ASK_DEPTH_EVENT: u64 = DEPTH_EVENT | SELL_EVENT | LOCAL_EVENT;

/// Represents a combination of [`DEPTH_CLEAR_EVENT`], [`BUY_EVENT`], and [`LOCAL_EVENT`].
pub const LOCAL_BID_DEPTH_CLEAR_EVENT: u64 = DEPTH_CLEAR_EVENT | BUY_EVENT | LOCAL_EVENT;

/// Represents a combination of [`DEPTH_CLEAR_EVENT`], [`SELL_EVENT`], and [`LOCAL_EVENT`].
pub const LOCAL_ASK_DEPTH_CLEAR_EVENT: u64 = DEPTH_CLEAR_EVENT | SELL_EVENT | LOCAL_EVENT;

/// Represents a combination of [`DEPTH_SNAPSHOT_EVENT`], [`BUY_EVENT`], and [`LOCAL_EVENT`].
pub const LOCAL_BID_DEPTH_SNAPSHOT_EVENT: u64 = DEPTH_SNAPSHOT_EVENT | BUY_EVENT | LOCAL_EVENT;

/// Represents a combination of [`DEPTH_SNAPSHOT_EVENT`], [`SELL_EVENT`], and [`LOCAL_EVENT`].
pub const LOCAL_ASK_DEPTH_SNAPSHOT_EVENT: u64 = DEPTH_SNAPSHOT_EVENT | SELL_EVENT | LOCAL_EVENT;

/// Represents a combination of [`DEPTH_BBO_EVENT`], [`BUY_EVENT`], and [`LOCAL_EVENT`].
pub const LOCAL_BID_DEPTH_BBO_EVENT: u64 = DEPTH_BBO_EVENT | BUY_EVENT | LOCAL_EVENT;

/// Represents a combination of [`DEPTH_BBO_EVENT`], [`SELL_EVENT`], and [`LOCAL_EVENT`].
pub const LOCAL_ASK_DEPTH_BBO_EVENT: u64 = DEPTH_BBO_EVENT | SELL_EVENT | LOCAL_EVENT;

/// Represents a combination of [`TRADE_EVENT`], and [`LOCAL_EVENT`].
pub const LOCAL_TRADE_EVENT: u64 = TRADE_EVENT | LOCAL_EVENT;

/// Represents a combination of [`LOCAL_TRADE_EVENT`] and [`BUY_EVENT`].
pub const LOCAL_BUY_TRADE_EVENT: u64 = LOCAL_TRADE_EVENT | BUY_EVENT;

/// Represents a combination of [`LOCAL_TRADE_EVENT`] and [`SELL_EVENT`].
pub const LOCAL_SELL_TRADE_EVENT: u64 = LOCAL_TRADE_EVENT | SELL_EVENT;

/// Represents a combination of [`DEPTH_EVENT`], [`BUY_EVENT`], and [`EXCH_EVENT`].
pub const EXCH_BID_DEPTH_EVENT: u64 = DEPTH_EVENT | BUY_EVENT | EXCH_EVENT;

/// Represents a combination of [`DEPTH_EVENT`], [`SELL_EVENT`], and [`EXCH_EVENT`].
pub const EXCH_ASK_DEPTH_EVENT: u64 = DEPTH_EVENT | SELL_EVENT | EXCH_EVENT;

/// Represents a combination of [`DEPTH_CLEAR_EVENT`], [`BUY_EVENT`], and [`EXCH_EVENT`].
pub const EXCH_BID_DEPTH_CLEAR_EVENT: u64 = DEPTH_CLEAR_EVENT | BUY_EVENT | EXCH_EVENT;

/// Represents a combination of [`DEPTH_CLEAR_EVENT`], [`SELL_EVENT`], and [`EXCH_EVENT`].
pub const EXCH_ASK_DEPTH_CLEAR_EVENT: u64 = DEPTH_CLEAR_EVENT | SELL_EVENT | EXCH_EVENT;

/// Represents a combination of [`DEPTH_SNAPSHOT_EVENT`], [`BUY_EVENT`], and [`EXCH_EVENT`].
pub const EXCH_BID_DEPTH_SNAPSHOT_EVENT: u64 = DEPTH_SNAPSHOT_EVENT | BUY_EVENT | EXCH_EVENT;

/// Represents a combination of [`DEPTH_SNAPSHOT_EVENT`], [`SELL_EVENT`], and [`EXCH_EVENT`].
pub const EXCH_ASK_DEPTH_SNAPSHOT_EVENT: u64 = DEPTH_SNAPSHOT_EVENT | SELL_EVENT | EXCH_EVENT;

/// Represents a combination of [`DEPTH_BBO_EVENT`], [`BUY_EVENT`], and [`EXCH_EVENT`].
pub const EXCH_BID_DEPTH_BBO_EVENT: u64 = DEPTH_BBO_EVENT | BUY_EVENT | EXCH_EVENT;

/// Represents a combination of [`DEPTH_BBO_EVENT`], [`SELL_EVENT`], and [`EXCH_EVENT`].
pub const EXCH_ASK_DEPTH_BBO_EVENT: u64 = DEPTH_BBO_EVENT | SELL_EVENT | EXCH_EVENT;

/// Represents a combination of [`TRADE_EVENT`], and [`EXCH_EVENT`].
pub const EXCH_TRADE_EVENT: u64 = TRADE_EVENT | EXCH_EVENT;

/// Represents a combination of [`EXCH_TRADE_EVENT`] and [`BUY_EVENT`].
pub const EXCH_BUY_TRADE_EVENT: u64 = EXCH_TRADE_EVENT | BUY_EVENT;

/// Represents a combination of [`EXCH_TRADE_EVENT`] and [`SELL_EVENT`].
pub const EXCH_SELL_TRADE_EVENT: u64 = EXCH_TRADE_EVENT | SELL_EVENT;

/// Indicates that one should continue until the end of the data.
pub const UNTIL_END_OF_DATA: i64 = i64::MAX;

/// Identifies an order.
pub type OrderId = u64;

/// The bits of an event flag that hold the kind of event.
pub open spec fn kind_of(ev: u64) -> u64 {
    ev & 0xff
}

/// Whether an event flag carries all the bits of another, and its kind where that names one.
pub open spec fn flag_is(ev: u64, event: u64) -> bool {
    ev & event == event && (event & 0xff == 0 || ev & 0xff == event & 0xff)
}

/// Which order response a wait ends with.
#[derive(Copy, Clone, PartialEq, Eq, Debug, Structural)]
pub enum WaitOrderResponse {
    /// No response.
    NoResponse,
    /// The first one.
    Any,
    /// That of one order.
    Specified {
        /// The asset of the order.
        asset_no: usize,
        /// The order.
        order_id: OrderId,
    },
}

/// Feed event data.
#[derive(Clone, Copy, PartialEq, Debug)]
pub struct Event {
    /// Event flag
    pub ev: u64,
    /// Exchange timestamp, which is the time at which the event occurs on the exchange.
    pub exch_ts: i64,
    /// Local timestamp, which is the time at which the event is received by the local.
    pub local_ts: i64,
    /// Price
    pub px: Decimal,
    /// Quantity
    pub qty: Decimal,
}

impl Event {
    /// Checks if this `Event` corresponds to the given event.
    pub fn is(&self, event: u64) -> (r: bool)
        ensures
            r == flag_is(self.ev, event),
    {
        if (self.ev & event) != event {
            false
        } else {
            let event_kind: u64 = event & 0xff;
            if event_kind == 0 {
                true
            } else {
                self.ev & 0xff == event_kind
            }
        }
    }
}

/// Represents a side, which can refer to either the side of an order or the initiator's side in a
/// trade event, with the meaning varying depending on the context.
#[derive(Clone, Copy, Eq, PartialEq, Debug, Structural)]
pub enum Side {
    /// In the market depth event, this indicates the bid side; in the market trade event, it
    /// indicates that the trade initiator is a buyer.
    Buy,
    /// In the market depth event, this indicates the ask side; in the market trade event, it
    /// indicates that the trade initiator is a seller.
    Sell,
}

impl Side {
    /// One for a buy, minus one for a sell.
    pub open spec fn sign_spec(self) -> int {
        match self {
            Side::Buy => 1,
            Side::Sell => -1,
        }
    }

    /// One for a buy, minus one for a sell.
    pub fn sign(&self) -> (r: i64)
        ensures
            r == self.sign_spec(),
    {
        match self {
            Side::Buy => 1,
            Side::Sell => -1,
        }
    }

    /// The name in messages.
    pub fn as_str(&self) -> (r: &'static str)
        ensures
            r@ == (match *self {
                Side::Buy => "BUY"@,
                Side::Sell => "SELL"@,
            }),
    {
        match self {
            Side::Buy => "BUY",
            Side::Sell => "SELL",
        }
    }
}

/// Order status
#[derive(Clone, Copy, Eq, PartialEq, Debug, Structural)]
pub enum Status {
    /// No status.
    Unset,
    New,
    Expired,
    Filled,
    Canceled,
    PartiallyFilled,
    Rejected,
    Replaced,
}

/// Time In Force
#[derive(Clone, Copy, Eq, PartialEq, Debug, Structural)]
pub enum TimeInForce {
    /// Good 'Til Canceled
    GTC,
    /// Post-only
    GTX,
    /// Fill or Kill
    FOK,
    /// Immediate or Cancel
    IOC,
}

impl TimeInForce {
    /// The name in messages.
    pub fn as_str(&self) -> (r: &'static str)
        ensures
            r@ == (match *self {
                TimeInForce::GTC => "GTC"@,
                TimeInForce::GTX => "GTX"@,
                TimeInForce::FOK => "FOK"@,
                TimeInForce::IOC => "IOC"@,
            }),
    {
        match self {
            TimeInForce::GTC => "GTC",
            TimeInForce::GTX => "GTX",
            TimeInForce::FOK => "FOK",
            TimeInForce::IOC => "IOC",
        }
    }
}

/// Exchange-side price matching mode.
///
/// The exchange resolves the requested book level when it receives a new or modify request, so
/// the resulting price reflects order entry latency.
#[derive(Clone, Copy, Eq, PartialEq, Debug, Structural)]
pub enum PriceMatch {
    /// The order carries its price.
    Explicit,
    Opponent,
    Opponent5,
    Opponent10,
    Opponent20,
    Queue,
    Queue5,
    Queue10,
    Queue20,
}

impl PriceMatch {
    /// The name in messages.
    pub open spec fn name(self) -> Seq<char> {
        match self {
            PriceMatch::Explicit => "NONE"@,
            PriceMatch::Opponent => "OPPONENT"@,
            PriceMatch::Opponent5 => "OPPONENT_5"@,
            PriceMatch::Opponent10 => "OPPONENT_10"@,
            PriceMatch::Opponent20 => "OPPONENT_20"@,
            PriceMatch::Queue => "QUEUE"@,
            PriceMatch::Queue5 => "QUEUE_5"@,
            PriceMatch::Queue10 => "QUEUE_10"@,
            PriceMatch::Queue20 => "QUEUE_20"@,
        }
    }

    /// The name in messages.
    pub fn as_str(&self) -> (r: &'static str)
        ensures
            r@ == self.name(),
    {
        match self {
            PriceMatch::Explicit => "NONE",
            PriceMatch::Opponent => "OPPONENT",
            PriceMatch::Opponent5 => "OPPONENT_5",
            PriceMatch::Opponent10 => "OPPONENT_10",
            PriceMatch::Opponent20 => "OPPONENT_20",
            PriceMatch::Queue => "QUEUE",
            PriceMatch::Queue5 => "QUEUE_5",
            PriceMatch::Queue10 => "QUEUE_10",
            PriceMatch::Queue20 => "QUEUE_20",
        }
    }
}

/// Order type
#[derive(Clone, Copy, Eq, PartialEq, Debug, Structural)]
pub enum OrdType {
    Limit,
    Market,
}

impl OrdType {
    /// The name in messages.
    pub fn as_str(&self) -> (r: &'static str)
        ensures
            r@ == (match *self {
                OrdType::Limit => "LIMIT"@,
                OrdType::Market => "MARKET"@,
            }),
    {
        match self {
            OrdType::Limit => "LIMIT",
            OrdType::Market => "MARKET",
        }
    }
}

/// An order as the exchange with partial fills and its counterpart exchange it: its terms, its
/// progress and the request that is under way.
#[derive(Clone, Copy, Debug)]
pub struct Order {
    /// Order quantity.
    pub qty: Decimal,
    /// The quantity of this order that has not yet been executed.
    pub leaves_qty: Decimal,
    /// Executed quantity, only available when this order is executed.
    pub exec_qty: Decimal,
    /// Executed price, only available when this order is executed.
    pub exec_price: Decimal,
    /// Cumulative executed quantity.
    pub cum_exec_qty: Decimal,
    /// Cumulative executed value.
    pub cum_exec_value: Decimal,
    /// Cumulative number of price levels consumed by taker executions.
    pub taker_price_level_count: u32,
    /// Exact order price.
    pub price: Decimal,
    /// Exchange-side rule used to resolve `price` when the request arrives.
    pub price_match: PriceMatch,
    /// The time at which the exchange processes this order.
    pub exch_timestamp: i64,
    /// The time at which the local side received this order or sent it to the exchange.
    pub local_timestamp: i64,
    /// The order.
    pub order_id: OrderId,
    /// Whether the order is executed as a maker, only available when this order is executed.
    pub maker: bool,
    /// The type.
    pub order_type: OrdType,
    /// Request status:
    ///   * [`Status::New`]: Request to open a new order.
    ///   * [`Status::Canceled`]: Request to cancel an opened order.
    ///   * [`Status::Replaced`]: Request to modify an opened order.
    pub req: Status,
    /// The status.
    pub status: Status,
    /// The side.
    pub side: Side,
    /// How long the order lasts.
    pub time_in_force: TimeInForce,
}

impl View for Order {
    type V = Order;

    open spec fn view(&self) -> Order {
        *self
    }
}

impl Order {
    /// An order that was not yet sent.
    pub open spec fn fresh(
        order_id: OrderId,
        price: Decimal,
        qty: Decimal,
        side: Side,
        order_type: OrdType,
        time_in_force: TimeInForce,
    ) -> Order {
        Order {
            qty,
            leaves_qty: qty,
            exec_qty: Decimal::whole(0),
            exec_price: Decimal::whole(0),
            cum_exec_qty: Decimal::whole(0),
            cum_exec_value: Decimal::whole(0),
            taker_price_level_count: 0,
            price,
            price_match: PriceMatch::Explicit,
            exch_timestamp: 0,
            local_timestamp: 0,
            order_id,
            maker: false,
            order_type,
            req: Status::Unset,
            status: Status::Unset,
            side,
            time_in_force,
        }
    }

    /// Constructs an instance of `Order`.
    pub fn new(
        order_id: OrderId,
        price: Decimal,
        qty: Decimal,
        side: Side,
        order_type: OrdType,
        time_in_force: TimeInForce,
    ) -> (r: Order)
        ensures
            r == Order::fresh(order_id, price, qty, side, order_type, time_in_force),
    {
        Order {
            qty,
            leaves_qty: qty,
            exec_qty: Decimal::zero(),
            exec_price: Decimal::zero(),
            cum_exec_qty: Decimal::zero(),
            cum_exec_value: Decimal::zero(),
            taker_price_level_count: 0,
            price,
            price_match: PriceMatch::Explicit,
            exch_timestamp: 0,
            local_timestamp: 0,
            order_id,
            maker: false,
            order_type,
            req: Status::Unset,
            status: Status::Unset,
            side,
            time_in_force,
        }
    }

    /// Returns the order price.
    pub fn price(&self) -> (r: Decimal)
        ensures
            r == self.price,
    {
        self.price
    }

    /// Returns the executed price, only available when this order is executed: the average price,
    /// where it can be held. Before, it is the price of the latest fill.
    pub fn exec_price(&self) -> (r: Option<Decimal>)
        ensures
            r == (if self.cum_exec_qty@ != 0 {
                self.cum_exec_value.quotient(self.cum_exec_qty)
            } else {
                Some(self.exec_price)
            }),
    {
        if self.cum_exec_qty.is_zero() {
            Some(self.exec_price)
        } else {
            self.cum_exec_value.checked_div(self.cum_exec_qty)
        }
    }

    /// Whether the order is active in the market.
    pub open spec fn is_active(self) -> bool {
        self.status == Status::New || self.status == Status::PartiallyFilled
    }

    /// Returns whether this order is cancelable.
    pub fn cancellable(&self) -> (r: bool)
        ensures
            r == (self.is_active() && self.req == Status::Unset),
    {
        self.active() && self.req == Status::Unset
    }

    /// Returns whether this order is active in the market.
    pub fn active(&self) -> (r: bool)
        ensures
            r == self.is_active(),
    {
        self.status == Status::New || self.status == Status::PartiallyFilled
    }

    /// Returns whether this order has an ongoing request.
    pub fn pending(&self) -> (r: bool)
        ensures
            r == (self.req != Status::Unset),
    {
        self.req != Status::Unset
    }

    /// Updates this order with the response of the exchange. When the local side saw the order is
    /// kept, and so is the exchange's time where the response has none.
    pub fn update(&mut self, order: &Order)
        ensures
            *final(self) == (Order {
                local_timestamp: old(self).local_timestamp,
                exch_timestamp: if order.exch_timestamp > 0 {
                    order.exch_timestamp
                } else {
                    old(self).exch_timestamp
                },
                ..*order
            }),
    {
        self.qty = order.qty;
        self.leaves_qty = order.leaves_qty;
        self.price = order.price;
        self.price_match = order.price_match;
        self.side = order.side;
        self.time_in_force = order.time_in_force;
        if order.exch_timestamp > 0 {
            self.exch_timestamp = order.exch_timestamp;
        }
        self.status = order.status;
        self.req = order.req;
        self.exec_price = order.exec_price;
        self.exec_qty = order.exec_qty;
        self.cum_exec_qty = order.cum_exec_qty;
        self.cum_exec_value = order.cum_exec_value;
        self.taker_price_level_count = order.taker_price_level_count;
        self.order_id = order.order_id;
        self.maker = order.maker;
        self.order_type = order.order_type;
    }
}

/// Describes an order to submit to the backtester.
#[derive(Clone, Copy, Debug)]
pub struct OrderRequest {
    /// The order.
    pub order_id: OrderId,
    /// The price.
    pub price: Decimal,
    /// If not [`PriceMatch::Explicit`], the exchange ignores `price` and resolves this mode on
    /// arrival.
    pub price_match: PriceMatch,
    /// The quantity.
    pub qty: Decimal,
    /// The side.
    pub side: Side,
    /// How long the order lasts.
    pub time_in_force: TimeInForce,
    /// The type.
    pub order_type: OrdType,
}

/// Provides state values.
#[derive(PartialEq, Clone, Copy, Debug)]
pub struct StateValues {
    /// The position.
    pub position: Decimal,
    /// The balance.
    pub balance: Decimal,
    /// The fees.
    pub fee: Decimal,
    /// The number of trades.
    pub num_trades: i64,
    /// The traded quantity.
    pub trading_volume: Decimal,
    /// The traded value.
    pub trading_value: Decimal,
}

impl StateValues {
    /// The values at the start.
    pub open spec fn initial() -> StateValues {
        StateValues {
            position: Decimal::whole(0),
            balance: Decimal::whole(0),
            fee: Decimal::whole(0),
            num_trades: 0,
            trading_volume: Decimal::whole(0),
            trading_value: Decimal::whole(0),
        }
    }
}

impl Default for StateValues {
    fn default() -> (r: StateValues)
        ensures
            r == StateValues::initial(),
    {
        StateValues {
            position: Decimal::zero(),
            balance: Decimal::zero(),
            fee: Decimal::zero(),
            num_trades: 0,
            trading_volume: Decimal::zero(),
            trading_value: Decimal::zero(),
        }
    }
}

/// How a wait for the simulation to advance ended.
#[derive(Eq, PartialEq, Copy, Clone, Debug, Structural)]
pub enum ElapseResult {
    /// The time was reached.
    Reached,
    /// There is no more data.
    EndOfData,
    /// Market data was received.
    MarketFeed,
    /// An order response was received.
    OrderResponse,
}

/// Provides errors that can occur in builders.
#[derive(Debug, Clone, Copy, PartialEq, Eq)]
pub enum BuildError {
    /// A part is missing.
    BuilderIncomplete(&'static str),
    /// An argument cannot be used.
    InvalidArgument(&'static str),
}

/// Of an order that was not yet sent nothing is executed: all of it is open. It carries its own
/// price, and is neither active nor requested.
pub proof fn fresh_orders_are_all_open(
    order_id: OrderId,
    price: Decimal,
    qty: Decimal,
    side: Side,
    order_type: OrdType,
    time_in_force: TimeInForce,
)
    ensures
        ({
            let order = Order::fresh(order_id, price, qty, side, order_type, time_in_force);
            &&& order.order_id == order_id
            &&& order.price == price
            &&& order.qty == qty
            &&& order.leaves_qty == qty
            &&& order.side == side
            &&& order.order_type == order_type
            &&& order.time_in_force == time_in_force
            &&& order.price_match == PriceMatch::Explicit
            &&& order.cum_exec_qty@ == 0
            &&& order.cum_exec_value@ == 0
            &&& order.exec_qty@ == 0
            &&& order.taker_price_level_count == 0
            &&& !order.is_active()
        }),
{
    lemma_small_wholes();
}

/// An order is active exactly while it rests in the book: new or partially filled.
pub proof fn active_orders_are_new_or_partially_filled(order: Order)
    ensures
        order.status == Status::New ==> order.is_active(),
        order.status == Status::PartiallyFilled ==> order.is_active(),
        order.status == Status::Unset ==> !order.is_active(),
        order.status == Status::Expired ==> !order.is_active(),
        order.status == Status::Filled ==> !order.is_active(),
        order.status == Status::Canceled ==> !order.is_active(),
        order.status == Status::Rejected ==> !order.is_active(),
{
}

/// Nothing was traded at the start.
pub proof fn nothing_is_traded_at_the_start()
    ensures
        StateValues::initial().position@ == 0,
        StateValues::initial().balance@ == 0,
        StateValues::initial().fee@ == 0,
        StateValues::initial().num_trades == 0,
        StateValues::initial().trading_volume@ == 0,
        StateValues::initial().trading_value@ == 0,
{
    lemma_small_wholes();
}

} // verus!
