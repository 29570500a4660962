use hftbacktest::assettype::LinearAsset;
use hftbacktest::decimal::Decimal;
use hftbacktest::depth::BTreeMarketDepth;
use hftbacktest::depth::L2MarketDepth;
use hftbacktest::error::BacktestError;
use hftbacktest::lifecycle::NewOrder;
use hftbacktest::lifecycle::Order;
use hftbacktest::lifecycle::OrderRequest;
use hftbacktest::lifecycle::OrderStatus;
use hftbacktest::lifecycle::OrderUpdate;
use hftbacktest::lifecycle::RequestOutcome;
use hftbacktest::models::fee::CommonFees;
use hftbacktest::models::fee::TradingValueFeeModel;
use hftbacktest::models::latency::ConstantLatency;
use hftbacktest::models::queue::RiskAdverseQueueModel;
use hftbacktest::order_bus::order_bus;
use hftbacktest::order_bus::LocalToExch;
use hftbacktest::order_bus::OrderLink;
use hftbacktest::processor::nopartialfillexchange::NoPartialFillExchange;
use hftbacktest::rules::TickSizeChange;
use hftbacktest::rules::TickSizeSchedule;
use hftbacktest::state::State;
use hftbacktest::types::Event;
use hftbacktest::types::OrdType;
use hftbacktest::types::PriceMatch;
use hftbacktest::types::Side;
use hftbacktest::types::TimeInForce;
use hftbacktest::types::EXCH_ASK_DEPTH_EVENT;
use hftbacktest::types::EXCH_BID_DEPTH_EVENT;
use hftbacktest::types::EXCH_SELL_TRADE_EVENT;

type Exchange = NoPartialFillExchange<
    LinearAsset,
    ConstantLatency,
    RiskAdverseQueueModel<BTreeMarketDepth>,
    BTreeMarketDepth,
    TradingValueFeeModel<CommonFees>,
>;
type Link = OrderLink<OrderRequest, OrderUpdate>;

fn exchange() -> (Exchange, Link, LocalToExch<ConstantLatency>) {
    let mut depth = BTreeMarketDepth::new();
    depth.update_bid_depth(Decimal::from_int(99), Decimal::one(), 0);
    depth.update_ask_depth(Decimal::from_int(101), Decimal::one(), 0);
    let schedule = TickSizeSchedule::new(vec![
        TickSizeChange {
            effective_from: 0,
            tick_size: Decimal::new(1, 2),
        },
        TickSizeChange {
            effective_from: 10,
            tick_size: Decimal::new(1, 1),
        },
    ])
    .unwrap();
    let (link, order_e2l, order_l2e) = order_bus(ConstantLatency::new(0, 0));
    (
        NoPartialFillExchange::new(
            depth,
            State::new(
                LinearAsset::new(Decimal::one()),
                TradingValueFeeModel::new(CommonFees::new(Decimal::zero(), Decimal::zero())),
            ),
            RiskAdverseQueueModel::new(),
            order_e2l,
            schedule,
        ),
        link,
        order_l2e,
    )
}

fn limit(order_id: u64, price: Decimal, side: Side, time_in_force: TimeInForce) -> Order {
    Order::new(
        order_id,
        price,
        Decimal::one(),
        side,
        OrdType::Limit,
        time_in_force,
    )
}

fn resting_price(exchange: &Exchange, order_id: u64) -> Decimal {
    exchange
        .orders
        .get(&order_id)
        .expect("order should rest")
        .order
        .price
}

#[test]
fn rule_switch_allows_unchanged_price_and_rejects_changed_invalid_price() {
    let (mut exchange, _, _) = exchange();
    let price = Decimal::new(10005, 2);
    let mut order = limit(1, price, Side::Buy, TimeInForce::GTC);
    exchange.ack_new(&mut order, 0).unwrap();
    assert_eq!(order.status, OrderStatus::Open);

    let quantity_only = exchange
        .ack_modify(1, price, PriceMatch::Explicit, Decimal::from_int(2), 10)
        .expect("quantity-only modify should be processed")
        .0
        .expect("quantity-only modify should be accepted");
    assert_eq!(quantity_only.status, OrderStatus::Open);
    assert_eq!(resting_price(&exchange, 1), price);

    let mut invalid_price = quantity_only.copy();
    invalid_price.price = Decimal::new(10006, 2);
    invalid_price.price_match = PriceMatch::Explicit;
    assert!(
        !exchange
            .ack_modify(
                1,
                invalid_price.price,
                invalid_price.price_match,
                invalid_price.qty,
                10,
            )
            .expect("invalid price modify should be rejected normally")
            .2
    );
    assert_eq!(resting_price(&exchange, 1), price);

    let mut missing_price_match = quantity_only;
    missing_price_match.price_match = PriceMatch::Opponent20;
    assert!(
        !exchange
            .ack_modify(
                1,
                missing_price_match.price,
                missing_price_match.price_match,
                missing_price_match.qty,
                10,
            )
            .expect("missing price match should be rejected normally")
            .2
    );
    assert_eq!(resting_price(&exchange, 1), price);
}

#[test]
fn nopartialfillexchange_first_ask_fills_crossing_buy_order() {
    let (mut exchange, mut link, _) = exchange();
    exchange.depth.clear_depth(Side::Sell, None);
    let mut order = limit(1, Decimal::from_int(100), Side::Buy, TimeInForce::GTC);
    exchange.ack_new(&mut order, 0).unwrap();
    assert_eq!(order.status, OrderStatus::Open);

    exchange
        .process(
            &mut link,
            &Event {
                ev: EXCH_ASK_DEPTH_EVENT,
                exch_ts: 1,
                local_ts: 2,
                px: Decimal::from_int(99),
                qty: Decimal::one(),
            },
        )
        .unwrap();

    assert!(exchange.orders.is_empty());
    assert_eq!(exchange.state.values().position, Decimal::one());
}

#[test]
fn nopartialfillexchange_first_bid_fills_crossing_sell_order() {
    let (mut exchange, mut link, _) = exchange();
    exchange.depth.clear_depth(Side::Buy, None);
    let mut order = limit(1, Decimal::from_int(99), Side::Sell, TimeInForce::GTC);
    exchange.ack_new(&mut order, 0).unwrap();
    assert_eq!(order.status, OrderStatus::Open);

    exchange
        .process(
            &mut link,
            &Event {
                ev: EXCH_BID_DEPTH_EVENT,
                exch_ts: 1,
                local_ts: 2,
                px: Decimal::from_int(100),
                qty: Decimal::one(),
            },
        )
        .unwrap();

    assert!(exchange.orders.is_empty());
    assert_eq!(exchange.state.values().position, Decimal::from_int(-1));
}

#[test]
fn post_only_orders_expire_instead_of_taking() {
    let (mut exchange, _, _) = exchange();
    let mut order = limit(1, Decimal::from_int(101), Side::Buy, TimeInForce::GTX);
    exchange.ack_new(&mut order, 0).unwrap();
    assert_eq!(order.status, OrderStatus::Expired);
    assert!(order.fills.is_empty());
    assert!(exchange.state.values().position.is_zero());
}

#[test]
fn takers_are_filled_whole_at_the_best_price() {
    let (mut exchange, _, _) = exchange();
    let mut order = limit(1, Decimal::from_int(105), Side::Buy, TimeInForce::IOC);
    order.qty = Decimal::from_int(50);
    exchange.ack_new(&mut order, 0).unwrap();
    assert_eq!(order.status, OrderStatus::Filled);
    assert_eq!(order.fills.len(), 1);
    assert_eq!(order.fills[0].price, Decimal::from_int(101));
    assert_eq!(order.fills[0].qty, Decimal::from_int(50));
    assert!(!order.fills[0].is_maker);
}

#[test]
fn a_second_order_with_the_same_id_is_refused() {
    let (mut exchange, _, _) = exchange();
    let mut order = limit(1, Decimal::from_int(98), Side::Buy, TimeInForce::GTC);
    exchange.ack_new(&mut order, 0).unwrap();
    let mut again = limit(1, Decimal::from_int(97), Side::Buy, TimeInForce::GTC);
    assert_eq!(
        exchange.ack_new(&mut again, 0),
        Err(BacktestError::OrderIdExist)
    );
}

#[test]
fn the_queue_ahead_is_filled_first() {
    let (mut exchange, mut link, _) = exchange();
    let mut order = limit(1, Decimal::from_int(99), Side::Buy, TimeInForce::GTC);
    exchange.ack_new(&mut order, 0).unwrap();
    let trade = |qty: Decimal| Event {
        ev: EXCH_SELL_TRADE_EVENT,
        exch_ts: 1,
        local_ts: 1,
        px: Decimal::from_int(99),
        qty,
    };
    exchange.process(&mut link, &trade(Decimal::one())).unwrap();
    assert_eq!(exchange.orders.len(), 1);
    exchange
        .process(&mut link, &trade(Decimal::new(1, 1)))
        .unwrap();
    assert!(exchange.orders.is_empty());
    assert_eq!(exchange.state.values().position, Decimal::one());
}

#[test]
fn every_request_gets_one_answer() {
    let (mut exchange, mut link, mut order_l2e) = exchange();
    let new = NewOrder {
        order_id: 1,
        price: Decimal::from_int(98),
        price_match: PriceMatch::Explicit,
        qty: Decimal::one(),
        side: Side::Buy,
        time_in_force: TimeInForce::GTC,
        order_type: OrdType::Limit,
    };
    let requests = [
        OrderRequest::New {
            request_id: 0,
            local_timestamp: 0,
            order: new,
        },
        OrderRequest::Modify {
            request_id: 1,
            local_timestamp: 0,
            order_id: 1,
            price: Decimal::from_int(97),
            price_match: PriceMatch::Explicit,
            qty: Decimal::one(),
        },
        OrderRequest::Cancel {
            request_id: 2,
            local_timestamp: 0,
            order_id: 2,
        },
        OrderRequest::Cancel {
            request_id: 3,
            local_timestamp: 0,
            order_id: 1,
        },
    ];
    for request in requests {
        order_l2e
            .request(&mut link, request, 0)
            .expect("request should be sent");
    }
    assert_eq!(exchange.earliest_recv_order_timestamp(&link), 0);
    assert_eq!(exchange.process_recv_order(&mut link, 0), Ok(false));
    assert_eq!(exchange.earliest_recv_order_timestamp(&link), i64::MAX);
    let mut outcomes = Vec::new();
    while let Some(update) = order_l2e.receive(&mut link, 0) {
        let result = update.request_result.expect("answers carry a result");
        outcomes.push((result.request_id, result.outcome));
    }
    assert_eq!(
        outcomes,
        vec![
            (0, RequestOutcome::Accepted),
            (1, RequestOutcome::Accepted),
            (2, RequestOutcome::Rejected),
            (3, RequestOutcome::Accepted),
        ]
    );
    assert!(exchange.orders.is_empty());
}
