use hftbacktest::assettype::LinearAsset;
use hftbacktest::decimal::Decimal;
use hftbacktest::depth::BTreeMarketDepth;
use hftbacktest::error::BacktestError;
use hftbacktest::lifecycle::OrderFill;
use hftbacktest::lifecycle::OrderRequest;
use hftbacktest::lifecycle::OrderState;
use hftbacktest::lifecycle::OrderStatus;
use hftbacktest::lifecycle::OrderUpdate;
use hftbacktest::lifecycle::RequestOutcome;
use hftbacktest::lifecycle::RequestResult;
use hftbacktest::models::fee::CommonFees;
use hftbacktest::models::fee::TradingValueFeeModel;
use hftbacktest::models::latency::ConstantLatency;
use hftbacktest::models::queue::RiskAdverseQueueModel;
use hftbacktest::order_bus::order_bus;
use hftbacktest::order_bus::ExchToLocal;
use hftbacktest::order_bus::LocalToExch;
use hftbacktest::order_bus::OrderLink;
use hftbacktest::processor::local::Local;
use hftbacktest::processor::partialfillexchange::PartialFillExchange;
use hftbacktest::rules::TickSizeChange;
use hftbacktest::rules::TickSizeSchedule;
use hftbacktest::snapshot::SnapshotError;
use hftbacktest::snapshot::SnapshotProcessor;
use hftbacktest::state::State;
use hftbacktest::types::Event;
use hftbacktest::types::OrdType;
use hftbacktest::types::Order;
use hftbacktest::types::PriceMatch;
use hftbacktest::types::Side;
use hftbacktest::types::Status;
use hftbacktest::types::TimeInForce;
use hftbacktest::types::EXCH_ASK_DEPTH_EVENT;
use hftbacktest::types::EXCH_SELL_TRADE_EVENT;
use hftbacktest::types::LOCAL_BUY_TRADE_EVENT;
use hftbacktest::types::LOCAL_EVENT;

type Fees = TradingValueFeeModel<CommonFees>;
type TestLocal = Local<LinearAsset, ConstantLatency, BTreeMarketDepth, Fees>;
type TestExchange = PartialFillExchange<
    LinearAsset,
    ConstantLatency,
    RiskAdverseQueueModel<BTreeMarketDepth>,
    BTreeMarketDepth,
    Fees,
>;
type Link = OrderLink<OrderRequest, OrderUpdate>;

fn whole(value: i64) -> Decimal {
    Decimal::from_int(value)
}

fn state() -> State<LinearAsset, Fees> {
    State::new(
        LinearAsset::new(Decimal::one()),
        TradingValueFeeModel::new(CommonFees::new(Decimal::zero(), Decimal::zero())),
    )
}

fn trade_recording_local(capacity: usize) -> TestLocal {
    let (_, _, order_l2e): (Link, _, _) = order_bus(ConstantLatency::new(0, 0));
    Local::new(BTreeMarketDepth::new(), state(), capacity, order_l2e).enable_snapshot()
}

fn market_trade(timestamp: i64) -> Event {
    Event {
        ev: LOCAL_BUY_TRADE_EVENT,
        exch_ts: timestamp,
        local_ts: timestamp,
        px: whole(100),
        qty: Decimal::one(),
    }
}

fn recorded(local: &TestLocal) -> Vec<Event> {
    local.last_trades().iter().copied().collect()
}

#[test]
fn records_all_trades_past_initial_capacity_until_cleared() {
    let mut local = trade_recording_local(1);
    let trades: Vec<Event> = (1..=10).map(market_trade).collect();
    for trade in &trades {
        local.process(trade);
    }
    assert_eq!(recorded(&local), trades);
    assert_eq!(recorded(&local), trades);
    local.clear_last_trades();
    assert!(local.last_trades().is_empty());
    local.process(&trades[0]);
    assert_eq!(recorded(&local), trades[..1]);
}

#[test]
fn trade_snapshots_preserve_pending_batches_and_recording_after_clear() {
    let mut local = trade_recording_local(1);
    let trades: Vec<Event> = (1..=10).map(market_trade).collect();
    for trade in &trades {
        local.process(trade);
    }
    let mut branch = local
        .snapshot_processor()
        .expect("local snapshot should succeed");
    local.clear_last_trades();
    assert_eq!(recorded(&branch), trades);
    branch.clear_last_trades();
    let mut empty_branch = branch
        .snapshot_processor()
        .expect("empty local snapshot should succeed");
    for trade in &trades {
        empty_branch.process(trade);
    }
    assert_eq!(recorded(&empty_branch), trades);
    assert!(branch.last_trades().is_empty());
    assert!(local.last_trades().is_empty());
}

#[test]
fn zero_capacity_disables_recording_including_after_snapshot() {
    let mut local = trade_recording_local(0);
    local.process(&market_trade(1));
    assert!(local.last_trades().is_empty());
    local.clear_last_trades();
    let mut branch = local
        .snapshot_processor()
        .expect("local snapshot should succeed");
    branch.process(&market_trade(2));
    assert!(branch.last_trades().is_empty());
}

#[test]
fn snapshots_must_be_enabled() {
    let (_, _, order_l2e): (Link, _, _) = order_bus(ConstantLatency::new(0, 0));
    let local = Local::new(BTreeMarketDepth::new(), state(), 0, order_l2e);
    let error = local
        .snapshot_processor()
        .expect_err("snapshots are not enabled");
    assert_eq!(error, SnapshotError::Unsupported("L2 local processor"));
    assert_eq!(
        error.message(),
        "snapshot is not enabled for L2 local processor"
    );
}

/// An exchange with partial fills, behind the requests and updates of the local side.
struct Venue {
    exchange: TestExchange,
    inner: OrderLink<Order, Order>,
    inner_local: LocalToExch<ConstantLatency>,
    order_e2l: ExchToLocal<ConstantLatency>,
}

fn status_of(status: Status) -> OrderStatus {
    match status {
        Status::Expired => OrderStatus::Expired,
        Status::Filled => OrderStatus::Filled,
        Status::Canceled => OrderStatus::Canceled,
        _ => OrderStatus::Open,
    }
}

fn state_of(order: &Order) -> OrderState {
    OrderState {
        price: order.price,
        price_match: order.price_match,
        qty: order.qty,
        status: status_of(order.status),
    }
}

impl Venue {
    fn new(order_e2l: ExchToLocal<ConstantLatency>) -> Venue {
        let schedule = TickSizeSchedule::new(vec![TickSizeChange {
            effective_from: 0,
            tick_size: Decimal::one(),
        }])
        .expect("test tick size schedule should be valid");
        let (inner, inner_e2l, inner_local) = order_bus(ConstantLatency::new(0, 0));
        Venue {
            exchange: PartialFillExchange::new(
                BTreeMarketDepth::new(),
                state(),
                RiskAdverseQueueModel::new(),
                inner_e2l,
                schedule,
            ),
            inner,
            inner_local,
            order_e2l,
        }
    }

    fn respond(&mut self, link: &mut Link, update: OrderUpdate, timestamp: i64) {
        self.order_e2l
            .respond(link, update, timestamp)
            .expect("update should be sent");
    }

    fn process(&mut self, link: &mut Link, event: &Event) -> Result<(), BacktestError> {
        self.exchange.process(&mut self.inner, event)?;
        while let Some(order) = self.inner_local.receive(&mut self.inner, event.exch_ts) {
            let update = OrderUpdate {
                order_id: order.order_id,
                exch_timestamp: event.exch_ts,
                fills: vec![OrderFill {
                    price: order.exec_price,
                    qty: order.exec_qty,
                    exch_timestamp: event.exch_ts,
                    is_maker: order.maker,
                }],
                state: Some(state_of(&order)),
                request_result: None,
            };
            self.respond(link, update, event.exch_ts);
        }
        Ok(())
    }

    fn process_recv_order(&mut self, link: &mut Link, timestamp: i64) -> Result<(), BacktestError> {
        while let Some(request) = self.order_e2l.receive(link, timestamp) {
            let mut fills = Vec::new();
            let order = match request {
                OrderRequest::New { order: new, .. } => {
                    let mut order = Order::new(
                        new.order_id,
                        new.price,
                        new.qty,
                        new.side,
                        new.order_type,
                        new.time_in_force,
                    );
                    let plan = self.exchange.liquidity(&order);
                    self.exchange.ack_new(&mut order, timestamp)?;
                    fills = taken(plan, &order, Decimal::zero(), timestamp);
                    order
                }
                OrderRequest::Modify {
                    order_id,
                    price,
                    qty,
                    ..
                } => {
                    let mut order = self
                        .exchange
                        .orders
                        .get(&order_id)
                        .expect("order should rest")
                        .order;
                    let done = order.cum_exec_qty;
                    order.price = price;
                    order.qty = qty;
                    let plan = self.exchange.liquidity(&order);
                    self.exchange.ack_modify(&mut order, timestamp)?;
                    fills = taken(plan, &order, done, timestamp);
                    order
                }
                OrderRequest::Cancel { order_id, .. } => {
                    let mut order = self
                        .exchange
                        .orders
                        .get(&order_id)
                        .expect("order should rest")
                        .order;
                    self.exchange.ack_cancel(&mut order, timestamp);
                    order
                }
            };
            let update = OrderUpdate {
                order_id: order.order_id,
                exch_timestamp: timestamp,
                fills,
                state: Some(state_of(&order)),
                request_result: Some(RequestResult {
                    request_id: request.request_id(),
                    local_timestamp: request.local_timestamp(),
                    kind: request.kind(),
                    outcome: RequestOutcome::Accepted,
                }),
            };
            self.respond(link, update, timestamp);
        }
        Ok(())
    }
}

/// The fills of an order that took liquidity.
fn taken(
    plan: Option<(Vec<(Decimal, Decimal)>, Decimal)>,
    order: &Order,
    done: Decimal,
    timestamp: i64,
) -> Vec<OrderFill> {
    if order.cum_exec_qty == done {
        return Vec::new();
    }
    plan.expect("quantities should be representable")
        .0
        .into_iter()
        .map(|(price, qty)| OrderFill {
            price,
            qty,
            exch_timestamp: timestamp,
            is_maker: false,
        })
        .collect()
}

fn parties() -> (TestLocal, Venue, Link) {
    let (link, order_e2l, order_l2e) = order_bus(ConstantLatency::new(0, 0));
    (
        Local::new(BTreeMarketDepth::new(), state(), 0, order_l2e),
        Venue::new(order_e2l),
        link,
    )
}

fn seen_fills(local: &TestLocal, order_id: u64) -> Vec<(Decimal, Decimal, bool)> {
    local
        .orders()
        .get(&order_id)
        .expect("order should be known")
        .fills
        .iter()
        .map(|fill| (fill.price, fill.qty, fill.is_maker))
        .collect()
}

#[test]
fn preserves_each_fill_in_a_multilevel_order_update() {
    let (mut local, mut exchange, mut link) = parties();
    for (price, qty) in [(100, 2), (101, 1)] {
        exchange
            .process(
                &mut link,
                &Event {
                    ev: EXCH_ASK_DEPTH_EVENT,
                    exch_ts: 0,
                    local_ts: 0,
                    px: whole(price),
                    qty: whole(qty),
                },
            )
            .expect("depth event should be processed");
    }

    local
        .submit_order(
            &mut link,
            1,
            Side::Buy,
            whole(101),
            PriceMatch::Explicit,
            whole(3),
            OrdType::Limit,
            TimeInForce::IOC,
            0,
        )
        .expect("order should be submitted");
    exchange
        .process_recv_order(&mut link, 0)
        .expect("exchange should process the request");
    local
        .process_recv_order(&mut link, 0, Some(1))
        .expect("local should process the update");

    let order = local.orders().get(&1).expect("order should be known");
    assert_eq!(order.status, OrderStatus::Filled);
    assert_eq!(order.filled, whole(3));
    assert_eq!(
        seen_fills(&local, 1),
        vec![
            (whole(100), whole(2), false),
            (whole(101), Decimal::one(), false),
        ]
    );
    assert!(local.pending_order_request(1).is_none());
    assert_eq!(
        local
            .last_order_request_result(1)
            .expect("request result should be retained")
            .outcome,
        RequestOutcome::Accepted
    );
    assert_eq!(local.state_values().num_trades, 2);
}

#[test]
fn local_preserves_each_fill_in_a_multilevel_order_update() {
    preserves_each_fill_in_a_multilevel_order_update();
}

#[test]
fn one_order_retains_maker_and_taker_fills_across_modify() {
    let (mut local, mut exchange, mut link) = parties();
    exchange
        .process(
            &mut link,
            &Event {
                ev: EXCH_ASK_DEPTH_EVENT,
                exch_ts: 0,
                local_ts: 0,
                px: whole(101),
                qty: whole(2),
            },
        )
        .expect("ask should be processed");
    local
        .submit_order(
            &mut link,
            7,
            Side::Buy,
            whole(100),
            PriceMatch::Explicit,
            whole(3),
            OrdType::Limit,
            TimeInForce::GTC,
            0,
        )
        .expect("maker order should be submitted");
    exchange
        .process_recv_order(&mut link, 0)
        .expect("exchange should accept maker order");
    local
        .process_recv_order(&mut link, 0, Some(7))
        .expect("local should receive maker acknowledgement");

    exchange
        .process(
            &mut link,
            &Event {
                ev: EXCH_SELL_TRADE_EVENT,
                exch_ts: 1,
                local_ts: 1,
                px: whole(100),
                qty: Decimal::one(),
            },
        )
        .expect("trade should partially fill maker order");
    local
        .process_recv_order(&mut link, 1, None)
        .expect("local should receive maker fill");
    assert_eq!(
        local.orders().get(&7).expect("order should be known").filled,
        Decimal::one()
    );

    local
        .modify(&mut link, 7, whole(101), PriceMatch::Explicit, whole(3), 1)
        .expect("modify should be submitted");
    exchange
        .process_recv_order(&mut link, 1)
        .expect("exchange should process modify");
    local
        .process_recv_order(&mut link, 1, Some(7))
        .expect("local should receive modify result");

    let order = local.orders().get(&7).expect("order should be known");
    assert_eq!(order.status, OrderStatus::Filled);
    assert_eq!(order.filled, whole(3));
    assert_eq!(
        seen_fills(&local, 7),
        vec![
            (whole(100), Decimal::one(), true),
            (whole(101), whole(2), false),
        ]
    );
    assert_eq!(local.state_values().num_trades, 2);
}

#[test]
fn local_one_order_retains_maker_and_taker_fills_across_modify() {
    one_order_retains_maker_and_taker_fills_across_modify();
}

#[test]
fn cancel_preserves_partial_fills_and_ends_the_open_state() {
    let (mut local, mut exchange, mut link) = parties();
    local
        .submit_order(
            &mut link,
            9,
            Side::Buy,
            whole(100),
            PriceMatch::Explicit,
            whole(3),
            OrdType::Limit,
            TimeInForce::GTC,
            0,
        )
        .expect("maker order should be submitted");
    exchange
        .process_recv_order(&mut link, 0)
        .expect("exchange should accept maker order");
    local
        .process_recv_order(&mut link, 0, Some(9))
        .expect("local should receive maker acknowledgement");
    exchange
        .process(
            &mut link,
            &Event {
                ev: EXCH_SELL_TRADE_EVENT,
                exch_ts: 1,
                local_ts: 1,
                px: whole(100),
                qty: Decimal::one(),
            },
        )
        .expect("trade should partially fill maker order");
    local
        .process_recv_order(&mut link, 1, None)
        .expect("local should receive partial fill");

    local
        .cancel(&mut link, 9, 1)
        .expect("cancel should be submitted");
    exchange
        .process_recv_order(&mut link, 1)
        .expect("exchange should process cancel");
    local
        .process_recv_order(&mut link, 1, Some(9))
        .expect("local should receive cancel result");

    let order = local.orders().get(&9).expect("order should be known");
    assert_eq!(order.status, OrderStatus::Canceled);
    assert_eq!(order.filled, Decimal::one());
    assert_eq!(order.remaining(), Some(whole(2)));
    assert_eq!(order.fills.len(), 1);
    assert!(order.fills[0].is_maker);
    assert!(!order.active());
}

#[test]
fn local_cancel_preserves_partial_fills_and_ends_the_open_state() {
    cancel_preserves_partial_fills_and_ends_the_open_state();
}

#[test]
fn requests_are_checked_before_they_are_sent() {
    let (mut local, mut exchange, mut link) = parties();
    let submit = |local: &mut TestLocal, link: &mut Link| {
        local.submit_order(
            link,
            1,
            Side::Buy,
            whole(100),
            PriceMatch::Explicit,
            whole(1),
            OrdType::Limit,
            TimeInForce::GTC,
            0,
        )
    };
    assert_eq!(submit(&mut local, &mut link), Ok(()));
    assert_eq!(
        submit(&mut local, &mut link),
        Err(BacktestError::OrderIdExist)
    );
    assert_eq!(
        local.cancel(&mut link, 1, 0),
        Err(BacktestError::OrderNotFound)
    );
    assert_eq!(local.earliest_send_order_timestamp(&link), 0);
    assert_eq!(local.earliest_recv_order_timestamp(&link), i64::MAX);
    exchange
        .process_recv_order(&mut link, 0)
        .expect("exchange should accept the order");
    assert_eq!(local.process_recv_order(&mut link, 0, Some(1)), Ok(true));
    let modify = |local: &mut TestLocal, link: &mut Link| {
        local.modify(link, 1, whole(99), PriceMatch::Explicit, whole(1), 0)
    };
    assert_eq!(modify(&mut local, &mut link), Ok(()));
    assert_eq!(
        modify(&mut local, &mut link),
        Err(BacktestError::OrderRequestInProcess)
    );
    assert_eq!(
        local.cancel(&mut link, 1, 0),
        Err(BacktestError::OrderRequestInProcess)
    );
    exchange
        .process_recv_order(&mut link, 0)
        .expect("exchange should process the amendment");
    assert_eq!(local.process_recv_order(&mut link, 0, None), Ok(false));
    assert_eq!(local.order_latency(), Some((0, 0, 0)));
    assert_eq!(local.cancel(&mut link, 1, 0), Ok(()));
    exchange
        .process_recv_order(&mut link, 0)
        .expect("exchange should cancel the order");
    assert_eq!(local.process_recv_order(&mut link, 0, Some(1)), Ok(true));
    assert_eq!(
        local.cancel(&mut link, 1, 0),
        Err(BacktestError::InvalidOrderStatus)
    );
    local.clear_inactive_orders();
    assert!(local.orders().is_empty());
}

fn event(timestamp: i64, trade: bool) -> Event {
    Event {
        ev: if trade {
            LOCAL_BUY_TRADE_EVENT
        } else {
            LOCAL_EVENT
        },
        exch_ts: timestamp - 100,
        local_ts: timestamp,
        px: whole(100),
        qty: Decimal::one(),
    }
}

/// A local side and the rest of its feed, up to the end of the replay.
struct Replay {
    local: TestLocal,
    feed: Vec<Event>,
    row: usize,
    end: i64,
    now: i64,
}

impl Replay {
    fn new(enabled: bool, capacity: usize, horizon: Option<u128>) -> Replay {
        Replay {
            local: trade_recording_local(capacity).configure_trades(enabled, horizon),
            feed: vec![
                event(0, false),
                event(1, true),
                event(2, true),
                event(3, true),
            ],
            row: 0,
            end: 20,
            now: 0,
        }
    }

    fn goto(&mut self, timestamp: i64) {
        while self.row < self.feed.len() && self.feed[self.row].local_ts <= timestamp {
            self.local.process(&self.feed[self.row]);
            self.row += 1;
        }
        self.now = timestamp;
        self.local.advance_trade_time(timestamp);
    }

    fn elapse(&mut self, duration: i64) {
        self.goto(self.now + duration);
    }

    fn goto_end(&mut self) {
        self.goto(self.end);
    }

    fn branch(&self) -> Replay {
        Replay {
            local: self
                .local
                .snapshot_processor()
                .expect("snapshot should succeed"),
            feed: self.feed.clone(),
            ..*self
        }
    }

    fn timestamps(&self) -> Vec<i64> {
        self.local
            .last_trades()
            .iter()
            .map(|event| event.local_ts)
            .collect()
    }
}

#[test]
fn expires_at_local_time_boundary_without_more_trades_on_the_asset() {
    let mut hbt = Replay::new(true, 1, Some(2));
    hbt.local.clear_last_trades();
    assert_eq!(hbt.local.last_trades_since(), None);
    hbt.elapse(2);
    assert_eq!(hbt.timestamps(), vec![1, 2]);
    assert_eq!(hbt.local.last_trades_since(), Some(0));
    hbt.elapse(1);
    assert_eq!(hbt.timestamps(), vec![2, 3]);
    hbt.elapse(1);
    assert_eq!(hbt.timestamps(), vec![3]);
    assert_eq!(hbt.local.last_trades_since(), Some(2));
    hbt.elapse(1);
    assert_eq!(hbt.timestamps(), Vec::<i64>::new());
    assert_eq!(hbt.local.last_trades_since(), Some(3));
    hbt.goto_end();
    assert_eq!(hbt.now, 20);
    assert_eq!(hbt.local.last_trades_since(), Some(18));
}

#[test]
fn snapshots_preserve_horizon_and_clear_resets_only_branch_coverage() {
    let mut hbt = Replay::new(true, 0, Some(2));
    hbt.elapse(2);
    let snapshot = hbt.branch();
    let mut branch = snapshot.branch();
    branch.local.clear_last_trades();
    assert_eq!(branch.local.last_trades_since(), Some(2));
    assert_eq!(hbt.local.last_trades_since(), Some(0));
    assert_eq!(hbt.timestamps(), vec![1, 2]);
    branch.elapse(1);
    assert_eq!(branch.timestamps(), vec![3]);
    branch.elapse(2);
    assert_eq!(branch.timestamps(), Vec::<i64>::new());
    assert_eq!(snapshot.branch().timestamps(), vec![1, 2]);
}

#[test]
fn no_horizon_retains_history_beyond_capacity_until_clear() {
    let mut hbt = Replay::new(true, 1, None);
    hbt.goto_end();
    assert_eq!(hbt.timestamps(), vec![1, 2, 3]);
    assert_eq!(hbt.local.last_trades_since(), Some(0));
    hbt.local.clear_last_trades();
    assert_eq!(hbt.timestamps(), Vec::<i64>::new());
    assert_eq!(hbt.local.last_trades_since(), Some(20));
}

#[test]
fn disabled_recording_and_zero_horizon_have_distinct_coverage() {
    let mut disabled = Replay::new(false, 16, None);
    disabled.goto_end();
    disabled.local.clear_last_trades();
    assert_eq!(disabled.timestamps(), Vec::<i64>::new());
    assert_eq!(disabled.local.last_trades_since(), None);
    let mut empty_window = Replay::new(true, 0, Some(0));
    empty_window.elapse(3);
    assert_eq!(empty_window.timestamps(), Vec::<i64>::new());
    assert_eq!(empty_window.local.last_trades_since(), Some(3));
}
