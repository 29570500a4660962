use hftbacktest::assettype::LinearAsset;
use hftbacktest::decimal::Decimal;
use hftbacktest::depth::BTreeMarketDepth;
use hftbacktest::depth::L2MarketDepth;
use hftbacktest::error::BacktestError;
use hftbacktest::models::fee::CommonFees;
use hftbacktest::models::fee::TradingValueFeeModel;
use hftbacktest::models::latency::ConstantLatency;
use hftbacktest::models::queue::RiskAdverseQueueModel;
use hftbacktest::order_bus::order_bus;
use hftbacktest::order_bus::LocalToExch;
use hftbacktest::order_bus::OrderLink;
use hftbacktest::processor::partialfillexchange::PartialFillExchange;
use hftbacktest::rules::TickSizeChange;
use hftbacktest::rules::TickSizeSchedule;
use hftbacktest::snapshot::SnapshotProcessor;
use hftbacktest::state::State;
use hftbacktest::types::Event;
use hftbacktest::types::OrdType;
use hftbacktest::types::Order;
use hftbacktest::types::Side;
use hftbacktest::types::Status;
use hftbacktest::types::TimeInForce;
use hftbacktest::types::BUY_EVENT;
use hftbacktest::types::DEPTH_EVENT;
use hftbacktest::types::DEPTH_SNAPSHOT_EVENT;
use hftbacktest::types::EXCH_ASK_DEPTH_EVENT;
use hftbacktest::types::EXCH_BID_DEPTH_EVENT;
use hftbacktest::types::EXCH_EVENT;
use hftbacktest::types::EXCH_SELL_TRADE_EVENT;
use hftbacktest::types::LOCAL_EVENT;
use hftbacktest::types::SELL_EVENT;
use hftbacktest::types::TRADE_EVENT;
use std::collections::BTreeMap;

type TestExchange = PartialFillExchange<
    LinearAsset,
    ConstantLatency,
    RiskAdverseQueueModel<BTreeMarketDepth>,
    BTreeMarketDepth,
    TradingValueFeeModel<CommonFees>,
>;
type Link = OrderLink<Order, Order>;

fn whole(value: i64) -> Decimal {
    Decimal::from_int(value)
}

fn exchange_with(
    schedule: TickSizeSchedule,
    latency: ConstantLatency,
) -> (TestExchange, Link, LocalToExch<ConstantLatency>) {
    let (link, order_e2l, order_l2e) = order_bus(latency);
    let exchange = PartialFillExchange::new(
        BTreeMarketDepth::new(),
        State::new(
            LinearAsset::new(Decimal::one()),
            TradingValueFeeModel::new(CommonFees::new(Decimal::zero(), Decimal::zero())),
        ),
        RiskAdverseQueueModel::new(),
        order_e2l,
        schedule,
    );
    (exchange, link, order_l2e)
}

fn exchange() -> (TestExchange, Link) {
    let schedule = TickSizeSchedule::new(vec![TickSizeChange {
        effective_from: 0,
        tick_size: Decimal::one(),
    }])
    .expect("test tick size schedule should be valid");
    let (exchange, link, _) = exchange_with(schedule, ConstantLatency::new(0, 0));
    (exchange, link)
}

fn switching_schedule() -> TickSizeSchedule {
    TickSizeSchedule::new(vec![
        TickSizeChange {
            effective_from: 0,
            tick_size: Decimal::new(1, 2),
        },
        TickSizeChange {
            effective_from: 10,
            tick_size: Decimal::new(1, 1),
        },
    ])
    .expect("test tick size schedule should be valid")
}

fn order(
    order_id: u64,
    price: Decimal,
    qty: Decimal,
    side: Side,
    order_type: OrdType,
    time_in_force: TimeInForce,
) -> Order {
    Order::new(order_id, price, qty, side, order_type, time_in_force)
}

#[test]
fn first_ask_fills_crossing_buy_order() {
    let (mut exchange, mut link) = exchange();
    let mut order = order(
        1,
        whole(100),
        Decimal::one(),
        Side::Buy,
        OrdType::Limit,
        TimeInForce::GTC,
    );
    exchange.ack_new(&mut order, 0).unwrap();
    assert_eq!(order.status, Status::New);

    exchange
        .process(
            &mut link,
            &Event {
                ev: EXCH_ASK_DEPTH_EVENT,
                exch_ts: 1,
                local_ts: 2,
                px: whole(99),
                qty: Decimal::one(),
            },
        )
        .unwrap();

    assert!(exchange.orders.is_empty());
    assert_eq!(exchange.state.values().position, Decimal::one());
}

#[test]
fn first_bid_fills_crossing_sell_order() {
    let (mut exchange, mut link) = exchange();
    let mut order = order(
        1,
        whole(99),
        Decimal::one(),
        Side::Sell,
        OrdType::Limit,
        TimeInForce::GTC,
    );
    exchange.ack_new(&mut order, 0).unwrap();
    assert_eq!(order.status, Status::New);

    exchange
        .process(
            &mut link,
            &Event {
                ev: EXCH_BID_DEPTH_EVENT,
                exch_ts: 1,
                local_ts: 2,
                px: whole(100),
                qty: Decimal::one(),
            },
        )
        .unwrap();

    assert!(exchange.orders.is_empty());
    assert_eq!(exchange.state.values().position, whole(-1));
}

#[test]
fn partialfillexchange_first_ask_fills_crossing_buy_order() {
    first_ask_fills_crossing_buy_order();
}

#[test]
fn partialfillexchange_first_bid_fills_crossing_sell_order() {
    first_bid_fills_crossing_sell_order();
}

#[test]
fn liquidity_plans_only_the_levels_needed_to_fill() {
    let (mut exchange, _) = exchange();
    for price in [100, 101, 102] {
        exchange.depth.update_ask_depth(whole(price), whole(2), 0);
    }

    let market_order = order(
        1,
        Decimal::zero(),
        Decimal::one(),
        Side::Buy,
        OrdType::Market,
        TimeInForce::IOC,
    );
    assert_eq!(
        exchange.liquidity(&market_order),
        Some((vec![(whole(100), Decimal::one())], Decimal::zero()))
    );

    let limit_order = order(
        2,
        whole(100),
        whole(3),
        Side::Buy,
        OrdType::Limit,
        TimeInForce::FOK,
    );
    assert_eq!(
        exchange.liquidity(&limit_order),
        Some((vec![(whole(100), whole(2))], Decimal::one()))
    );

    for price in [98, 99] {
        exchange.depth.update_bid_depth(whole(price), whole(2), 0);
    }
    let sell_order = order(
        3,
        whole(98),
        whole(3),
        Side::Sell,
        OrdType::Limit,
        TimeInForce::FOK,
    );
    assert_eq!(
        exchange.liquidity(&sell_order),
        Some((
            vec![(whole(99), whole(2)), (whole(98), Decimal::one()),],
            Decimal::zero(),
        ))
    );
}

#[test]
fn fok_checks_available_liquidity_before_filling() {
    let (mut exchange, _) = exchange();
    for price in [100, 101] {
        exchange.depth.update_ask_depth(whole(price), whole(2), 0);
    }

    let mut insufficient = order(
        1,
        whole(100),
        whole(3),
        Side::Buy,
        OrdType::Limit,
        TimeInForce::FOK,
    );
    exchange
        .ack_new(&mut insufficient, 0)
        .expect("insufficient FOK order should be processed");
    assert_eq!(insufficient.status, Status::Expired);
    assert_eq!(insufficient.cum_exec_qty, Decimal::zero());
    assert_eq!(exchange.state.values().position, Decimal::zero());

    let mut sufficient = order(
        2,
        whole(101),
        whole(3),
        Side::Buy,
        OrdType::Limit,
        TimeInForce::FOK,
    );
    exchange
        .ack_new(&mut sufficient, 0)
        .expect("sufficient FOK order should be processed");
    assert_eq!(sufficient.status, Status::Filled);
    assert_eq!(sufficient.cum_exec_qty, whole(3));
    assert_eq!(exchange.state.values().position, whole(3));
    assert_eq!(exchange.state.values().num_trades, 2);
}

#[test]
fn multilevel_fok_ioc_and_gtc_match_both_sides() {
    for side in [Side::Buy, Side::Sell] {
        for (time_in_force, qty, status, filled, trades, levels, buy_value, sell_value) in [
            (TimeInForce::FOK, 5, Status::Expired, 0, 0, 0, 0, 0),
            (TimeInForce::FOK, 4, Status::Filled, 4, 2, 2, 402, 394),
            (TimeInForce::IOC, 5, Status::Expired, 4, 2, 2, 402, 394),
            (TimeInForce::GTC, 5, Status::Filled, 5, 3, 3, 503, 492),
        ] {
            let (mut exchange, _) = exchange();
            for (price, level_qty) in [(100, 2), (101, 2)] {
                exchange
                    .depth
                    .update_ask_depth(whole(price), whole(level_qty), 0);
            }
            for (price, level_qty) in [(99, 2), (98, 2)] {
                exchange
                    .depth
                    .update_bid_depth(whole(price), whole(level_qty), 0);
            }
            let limit = if side == Side::Buy { 101 } else { 98 };
            let mut order = order(
                1,
                whole(limit),
                whole(qty),
                side,
                OrdType::Limit,
                time_in_force,
            );
            exchange
                .ack_new(&mut order, 1)
                .expect("multilevel order should be processed");

            let expected_value = if side == Side::Buy {
                buy_value
            } else {
                sell_value
            };
            assert_eq!(order.status, status, "{side:?} {time_in_force:?}");
            assert_eq!(order.cum_exec_qty, whole(filled));
            assert_eq!(order.leaves_qty, whole(qty - filled));
            assert_eq!(order.cum_exec_value, whole(expected_value));
            assert_eq!(order.taker_price_level_count, levels);
            assert_eq!(exchange.state.values().num_trades, trades);
            assert_eq!(
                exchange.state.values().position,
                whole(if side == Side::Buy { filled } else { -filled })
            );
            assert!(exchange.orders.is_empty());
        }
    }
}

#[test]
fn both_sides_match_old_book_levels_after_tick_size_switch() {
    let (mut exchange, _, _) = exchange_with(switching_schedule(), ConstantLatency::new(0, 0));
    for (price, qty) in [(10005, 1), (10010, 2)] {
        exchange
            .depth
            .update_ask_depth(Decimal::new(price, 2), whole(qty), 9);
    }
    for (price, qty) in [(9995, 1), (9990, 2)] {
        exchange
            .depth
            .update_bid_depth(Decimal::new(price, 2), whole(qty), 9);
    }

    let mut buy = order(
        1,
        Decimal::new(10010, 2),
        whole(3),
        Side::Buy,
        OrdType::Limit,
        TimeInForce::FOK,
    );
    exchange.ack_new(&mut buy, 10).expect("buy should match");
    assert_eq!(buy.status, Status::Filled);
    assert_eq!(buy.cum_exec_qty, whole(3));
    assert_eq!(buy.cum_exec_value, Decimal::new(30025, 2));
    assert_eq!(buy.taker_price_level_count, 2);

    let mut sell = order(
        2,
        Decimal::new(9990, 2),
        whole(3),
        Side::Sell,
        OrdType::Limit,
        TimeInForce::IOC,
    );
    exchange.ack_new(&mut sell, 10).expect("sell should match");
    assert_eq!(sell.status, Status::Filled);
    assert_eq!(sell.cum_exec_qty, whole(3));
    assert_eq!(sell.cum_exec_value, Decimal::new(29975, 2));
    assert_eq!(sell.taker_price_level_count, 2);
    assert_eq!(exchange.state.values().position, Decimal::zero());
    assert_eq!(exchange.state.values().num_trades, 4);
}

#[test]
fn delayed_orders_use_rule_at_exchange_arrival() {
    for (local_timestamp, price, expected_status) in [
        (8, Decimal::new(10005, 2), Status::New),
        (9, Decimal::new(10005, 2), Status::Expired),
        (10, Decimal::new(10005, 2), Status::Expired),
        (9, Decimal::new(10010, 2), Status::New),
    ] {
        let (mut exchange, mut link, mut local) =
            exchange_with(switching_schedule(), ConstantLatency::new(1, 2));
        let mut order = order(
            1,
            price,
            Decimal::one(),
            Side::Buy,
            OrdType::Limit,
            TimeInForce::GTC,
        );
        order.local_timestamp = local_timestamp;
        order.req = Status::New;
        let mut rejection = order;
        rejection.req = Status::Rejected;
        local
            .request_or_reject(&mut link, order, rejection, order.local_timestamp)
            .expect("order should be sent");
        let arrival = local_timestamp + 1;
        assert_eq!(exchange.earliest_recv_order_timestamp(&link), arrival);
        exchange
            .process_recv_order(&mut link, arrival)
            .expect("delayed order should be processed");
        assert_eq!(
            local.earliest_recv_order_timestamp(&link),
            Some(arrival + 2)
        );
        let response = local
            .receive(&mut link, arrival + 2)
            .expect("exchange response should arrive after response latency");
        assert_eq!(response.status, expected_status);
        assert_eq!(response.exch_timestamp, arrival);
        assert_eq!(response.local_timestamp, local_timestamp);
        assert_eq!(
            exchange.orders.len(),
            usize::from(expected_status == Status::New)
        );
    }
}

#[test]
fn trades_fill_what_is_left_behind_the_queue() {
    let (mut exchange, mut link) = exchange();
    exchange.depth.update_bid_depth(whole(100), whole(2), 0);
    let mut order = order(
        1,
        whole(100),
        whole(3),
        Side::Buy,
        OrdType::Limit,
        TimeInForce::GTC,
    );
    exchange.ack_new(&mut order, 0).unwrap();
    let trade = |qty: i64, timestamp: i64| Event {
        ev: EXCH_SELL_TRADE_EVENT,
        exch_ts: timestamp,
        local_ts: timestamp,
        px: whole(100),
        qty: whole(qty),
    };
    exchange.process(&mut link, &trade(3, 1)).unwrap();
    let resting = exchange.orders.get(&1).expect("order should still rest");
    assert_eq!(resting.order.leaves_qty, whole(2));
    assert_eq!(resting.order.status, Status::PartiallyFilled);
    exchange.process(&mut link, &trade(5, 2)).unwrap();
    assert!(exchange.orders.is_empty());
    assert_eq!(exchange.state.values().position, whole(3));
    assert_eq!(exchange.state.values().num_trades, 2);
}

#[test]
fn missing_orders_are_refused_and_unknown_requests_are_errors() {
    let (mut exchange, mut link) = exchange();
    let (_, _, mut local) = exchange_with(switching_schedule(), ConstantLatency::new(0, 0));
    let mut cancel = order(
        5,
        whole(100),
        whole(1),
        Side::Buy,
        OrdType::Limit,
        TimeInForce::GTC,
    );
    cancel.req = Status::Canceled;
    local
        .request_or_reject(&mut link, cancel, cancel, 0)
        .expect("request should be sent");
    exchange
        .process_recv_order(&mut link, 0)
        .expect("cancel should be processed");
    let response = local.receive(&mut link, 0).expect("answer should arrive");
    assert_eq!(response.req, Status::Rejected);
    let mut unknown = cancel;
    unknown.req = Status::Unset;
    local
        .request_or_reject(&mut link, unknown, unknown, 0)
        .expect("request should be sent");
    assert_eq!(
        exchange.process_recv_order(&mut link, 0),
        Err(BacktestError::InvalidOrderRequest)
    );
}

#[test]
fn amendments_requeue_or_end_the_order() {
    let (mut exchange, mut link) = exchange();
    let mut resting = order(
        1,
        whole(100),
        whole(3),
        Side::Buy,
        OrdType::Limit,
        TimeInForce::GTC,
    );
    exchange.ack_new(&mut resting, 0).unwrap();
    exchange
        .process(
            &mut link,
            &Event {
                ev: EXCH_SELL_TRADE_EVENT,
                exch_ts: 1,
                local_ts: 1,
                px: whole(100),
                qty: whole(1),
            },
        )
        .unwrap();
    let mut amendment = resting;
    amendment.qty = whole(5);
    exchange.ack_modify(&mut amendment, 2).unwrap();
    assert_eq!(amendment.leaves_qty, whole(4));
    assert_eq!(amendment.status, Status::PartiallyFilled);
    let mut too_small = resting;
    too_small.qty = whole(1);
    exchange.ack_modify(&mut too_small, 3).unwrap();
    assert_eq!(too_small.status, Status::Canceled);
    assert!(exchange.orders.is_empty());
}

#[test]
fn executed_price_is_the_average() {
    let mut order = order(
        1,
        whole(100),
        whole(3),
        Side::Buy,
        OrdType::Limit,
        TimeInForce::GTC,
    );
    assert_eq!(order.exec_price(), Some(Decimal::zero()));
    order.cum_exec_qty = whole(4);
    order.cum_exec_value = whole(402);
    assert_eq!(order.exec_price(), Some(Decimal::new(1005, 1)));
    assert!(!order.pending());
    assert!(!order.active());
    order.status = Status::New;
    assert!(order.cancellable());
    let mut copy = order;
    copy.local_timestamp = 7;
    copy.exch_timestamp = 0;
    let mut known = order;
    known.local_timestamp = 3;
    known.exch_timestamp = 9;
    known.update(&copy);
    assert_eq!((known.local_timestamp, known.exch_timestamp), (3, 9));
}

fn event(timestamp: i64, flag: u64, price: i64, qty: i64) -> Event {
    Event {
        ev: flag | EXCH_EVENT | LOCAL_EVENT,
        exch_ts: timestamp,
        local_ts: timestamp,
        px: whole(price),
        qty: whole(qty),
    }
}

fn events() -> Vec<Event> {
    vec![
        event(0, DEPTH_SNAPSHOT_EVENT | BUY_EVENT, 100, 10),
        event(0, DEPTH_SNAPSHOT_EVENT | SELL_EVENT, 101, 10),
        event(0, DEPTH_EVENT | BUY_EVENT, 99, 15),
        event(0, DEPTH_EVENT | SELL_EVENT, 102, 15),
        event(10, TRADE_EVENT | SELL_EVENT, 100, 12),
        event(12, TRADE_EVENT | BUY_EVENT, 101, 12),
        event(20, TRADE_EVENT | SELL_EVENT, 100, 1),
        event(22, TRADE_EVENT | BUY_EVENT, 101, 1),
        event(30, TRADE_EVENT | SELL_EVENT, 100, 10),
        event(32, TRADE_EVENT | BUY_EVENT, 101, 10),
        event(45, DEPTH_EVENT | BUY_EVENT, 100, 7),
        event(45, DEPTH_EVENT | SELL_EVENT, 101, 8),
        event(60, 0, 0, 0),
    ]
}

/// An exchange, what is under way to and from it, and a trader at the other end.
struct Replay {
    exchange: TestExchange,
    link: Link,
    local: LocalToExch<ConstantLatency>,
    row: usize,
    now: i64,
    orders: BTreeMap<u64, Order>,
    position: i64,
}

impl Replay {
    fn new(latency: i64) -> Replay {
        let schedule = TickSizeSchedule::new(vec![TickSizeChange {
            effective_from: 0,
            tick_size: Decimal::one(),
        }])
        .expect("test tick size schedule should be valid");
        let (exchange, link, local) =
            exchange_with(schedule, ConstantLatency::new(latency, latency));
        let mut replay = Replay {
            exchange: exchange.enable_snapshot(),
            link,
            local,
            row: 0,
            now: 0,
            orders: BTreeMap::new(),
            position: 0,
        };
        replay.advance(0);
        replay
    }

    fn branch(&self) -> Replay {
        Replay {
            exchange: self
                .exchange
                .snapshot_processor()
                .expect("snapshot should succeed"),
            link: self.link.snapshot(),
            local: LocalToExch {
                order_latency: self.local.order_latency,
            },
            orders: self.orders.clone(),
            ..*self
        }
    }

    fn receive(&mut self, timestamp: i64) {
        while let Some(response) = self.local.receive(&mut self.link, timestamp) {
            let before = self
                .orders
                .get(&response.order_id)
                .map_or(Decimal::zero(), |order| order.cum_exec_qty);
            let filled = response
                .cum_exec_qty
                .checked_sub(before)
                .expect("quantity should be representable");
            assert_eq!(filled.scale(), 0);
            self.position += response.side.sign() * filled.mantissa() as i64;
            self.orders.insert(response.order_id, response);
        }
    }

    fn advance(&mut self, timestamp: i64) {
        assert!(timestamp >= self.now);
        let feed = events();
        loop {
            let data = feed.get(self.row).map_or(i64::MAX, |event| event.exch_ts);
            let request = self.exchange.earliest_recv_order_timestamp(&self.link);
            let response = self
                .local
                .earliest_recv_order_timestamp(&self.link)
                .unwrap_or(i64::MAX);
            let next = data.min(request).min(response);
            if next > timestamp {
                self.now = timestamp;
                return;
            }
            if response == next {
                self.receive(next);
            } else if data == next {
                self.exchange
                    .process(&mut self.link, &feed[self.row])
                    .expect("event should be processed");
                self.row += 1;
            } else {
                self.exchange
                    .process_recv_order(&mut self.link, next)
                    .expect("request should be processed");
            }
        }
    }

    fn request(&mut self, mut order: Order, request: Status) {
        order.req = request;
        order.local_timestamp = self.now;
        let mut rejection = order;
        rejection.req = Status::Rejected;
        self.local
            .request_or_reject(&mut self.link, order, rejection, self.now)
            .expect("request should be sent");
    }

    fn submit(&mut self, order: Order) {
        self.request(order, Status::New);
    }

    fn modify(&mut self, order_id: u64, price: i64, qty: i64) {
        let mut order = self.orders[&order_id];
        order.price = whole(price);
        order.qty = whole(qty);
        self.request(order, Status::Replaced);
    }

    fn cancel(&mut self, order_id: u64) {
        self.request(self.orders[&order_id], Status::Canceled);
    }
}

fn view(replay: &Replay) -> String {
    format!(
        "{:?}",
        (
            &replay.exchange,
            &replay.link,
            replay.row,
            replay.now,
            &replay.orders,
            replay.position,
        )
    )
}

fn post_only(order_id: u64, side: Side, price: i64, qty: i64) -> Order {
    order(
        order_id,
        whole(price),
        whole(qty),
        side,
        OrdType::Limit,
        TimeInForce::GTX,
    )
}

#[test]
fn partial_fills_queue_and_total_quantity_amendments_survive_restore() {
    for side in [Side::Buy, Side::Sell] {
        let price = if side == Side::Buy { 100 } else { 101 };
        let mut original = Replay::new(0);
        original.submit(post_only(1, side, price, 5));
        original.advance(15);
        assert_eq!(original.orders[&1].cum_exec_qty, whole(2));
        let before = view(&original);
        let snapshot = original.branch();
        assert_eq!(view(&original), before);
        let mut restored = snapshot.branch();
        assert_eq!(view(&original), view(&restored));
        for hbt in [&mut original, &mut restored] {
            hbt.modify(1, price, 4);
        }
        for timestamp in [21, 25, 35, 50] {
            original.advance(timestamp);
            restored.advance(timestamp);
            assert_eq!(view(&original), view(&restored));
        }
        let order = &original.orders[&1];
        // The exchange requeues amendments; restoring must preserve this existing behavior.
        assert_eq!(
            (order.qty, order.cum_exec_qty, order.leaves_qty),
            (whole(4), whole(3), whole(1))
        );
        assert_eq!(view(&snapshot.branch()), before);
    }
}

#[test]
fn fork_can_cancel_or_take_without_changing_the_source() {
    let mut original = Replay::new(0);
    original.submit(post_only(1, Side::Buy, 100, 5));
    original.advance(0);
    let snapshot = original.branch();
    let before = view(&original);
    let mut canceled = original.branch();
    canceled.cancel(1);
    canceled.advance(0);
    canceled.submit(order(
        2,
        Decimal::zero(),
        whole(12),
        Side::Buy,
        OrdType::Market,
        TimeInForce::IOC,
    ));
    canceled.advance(0);
    assert_eq!(canceled.orders[&2].taker_price_level_count, 2);
    canceled.advance(50);
    assert_eq!(view(&original), before);
    let mut untouched = snapshot.branch();
    original.advance(50);
    untouched.advance(50);
    assert_eq!(view(&original), view(&untouched));
    assert_eq!((original.position, canceled.position), (5, 12));
    drop(original);
    drop(canceled);
    drop(untouched);
    let mut late_restore = snapshot.branch();
    late_restore.advance(50);
    assert_eq!(late_restore.position, 5);
}

#[test]
fn pending_requests_and_exchange_responses_are_independent() {
    let mut original = Replay::new(3);
    original.submit(post_only(1, Side::Buy, 100, 5));
    let mut restored = original.branch();
    for timestamp in [2, 4, 7, 11] {
        restored.advance(timestamp);
        original.advance(timestamp);
        assert_eq!(view(&original), view(&restored));
    }
    // The exchange filled at 10, but the response will not reach the local until 13.
    assert_eq!(original.position, 0);
    let pending_response = original.branch();
    let mut response_branch = pending_response.branch();
    response_branch.advance(15);
    assert_eq!((original.position, response_branch.position), (0, 2));
    original.advance(15);
    assert_eq!(view(&original), view(&response_branch));
    original.modify(1, 100, 4);
    let mut amendment = original.branch();
    amendment.advance(25);
    original.advance(25);
    assert_eq!(view(&original), view(&amendment));
    original.cancel(1);
    let mut cancellation = original.branch();
    cancellation.advance(40);
    original.advance(40);
    assert_eq!(view(&original), view(&cancellation));
}
