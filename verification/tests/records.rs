use hftbacktest::data::reader::DataSource;
use hftbacktest::decimal::Decimal;
use hftbacktest::error::BacktestError;
use hftbacktest::lifecycle::NewOrder;
use hftbacktest::lifecycle::OrderRequest;
use hftbacktest::lifecycle::OrderUpdate;
use hftbacktest::models::latency::ConstantLatency;
use hftbacktest::models::latency::LatencyModel;
use hftbacktest::order_bus::order_bus;
use hftbacktest::order_bus::OrderBus;
use hftbacktest::order_bus::OrderLink;
use hftbacktest::recorder::AssetView;
use hftbacktest::recorder::BacktestRecorder;
use hftbacktest::sorted_map::SortedMap;
use hftbacktest::types::OrdType;
use hftbacktest::types::PriceMatch;
use hftbacktest::types::Side;
use hftbacktest::types::StateValues;
use hftbacktest::types::TimeInForce;

fn values(position: i64) -> StateValues {
    StateValues {
        position: Decimal::from_int(position),
        balance: Decimal::from_int(7),
        fee: Decimal::new(5, 1),
        num_trades: 3,
        trading_volume: Decimal::from_int(8),
        trading_value: Decimal::from_int(9),
    }
}

#[test]
fn assets_in_front_of_an_overflow_are_recorded() {
    let largest = Decimal::from_int(i64::MAX)
        .checked_mul(Decimal::from_int(4_000_000_000))
        .expect("product should be representable");
    let asset = |price: Decimal| AssetView {
        best_bid: Some(price),
        best_ask: Some(price),
        state_values: values(1),
    };
    let double = largest.checked_add(largest).expect("sum should be representable");
    let mut recorder = BacktestRecorder::new(3);
    assert_eq!(
        recorder.record(
            1,
            &vec![asset(Decimal::one()), asset(double), asset(Decimal::one())]
        ),
        Err(BacktestError::Overflow)
    );
    let counts: Vec<usize> = recorder.values.iter().map(|records| records.len()).collect();
    assert_eq!(counts, [1, 0, 0]);
}

#[test]
fn records_hold_the_mid_price_of_each_asset() {
    let mut recorder = BacktestRecorder::new(2);
    recorder
        .record(
            12,
            &vec![
                AssetView {
                    best_bid: Some(Decimal::from_int(100)),
                    best_ask: Some(Decimal::from_int(101)),
                    state_values: values(1),
                },
                AssetView {
                    best_bid: None,
                    best_ask: Some(Decimal::from_int(101)),
                    state_values: values(-2),
                },
            ],
        )
        .expect("mid prices should be representable");
    assert_eq!(recorder.values.len(), 2);
    assert_eq!(recorder.values[0].len(), 1);
    assert_eq!(recorder.values[0][0].timestamp, 12);
    assert_eq!(recorder.values[0][0].price, Some(Decimal::new(1005, 1)));
    assert_eq!(recorder.values[0][0].position, Decimal::from_int(1));
    assert_eq!(recorder.values[1][0].price, None);
    assert_eq!(recorder.values[1][0].position, Decimal::from_int(-2));
    assert_eq!(recorder.values[1][0].fee, Decimal::new(5, 1));
}

fn request(request_id: u64) -> OrderRequest {
    OrderRequest::New {
        request_id,
        local_timestamp: 0,
        order: NewOrder {
            order_id: request_id,
            price: Decimal::one(),
            price_match: PriceMatch::Explicit,
            qty: Decimal::one(),
            side: Side::Buy,
            time_in_force: TimeInForce::GTC,
            order_type: OrdType::Limit,
        },
    }
}

#[test]
fn messages_arrive_in_the_order_in_which_they_were_sent() {
    let mut bus = OrderBus::new();
    bus.append(request(1), 10);
    bus.append(request(2), 5);
    bus.append(request(3), 11);
    assert_eq!(bus.len(), 3);
    assert_eq!(bus.earliest_timestamp(), Some(10));
    assert_eq!(bus.receive(9), None);
    assert_eq!(bus.receive(10), Some(request(1)));
    assert_eq!(bus.receive(10), Some(request(2)));
    assert_eq!(bus.receive(10), None);
    let copy = bus.snapshot();
    assert_eq!(bus.pop_front(), Some((request(3), 11)));
    assert!(bus.is_empty());
    assert_eq!(copy.earliest_timestamp(), Some(11));
    bus.append(request(4), 1);
    bus.reset();
    assert_eq!(bus.earliest_timestamp(), None);
}

/// A model whose answers are given.
struct Scripted(i64);

impl LatencyModel<OrderRequest, OrderUpdate> for Scripted {
    fn entry(&mut self, _timestamp: i64, _request: &OrderRequest) -> i64 {
        self.0
    }

    fn response(&mut self, _timestamp: i64, _update: &OrderUpdate) -> i64 {
        self.0
    }
}

#[test]
fn requests_take_their_latency() {
    let (mut link, order_e2l, mut order_l2e): (OrderLink<OrderRequest, OrderUpdate>, _, _) =
        order_bus(ConstantLatency::new(3, 4));
    order_l2e
        .request(&mut link, request(1), 10)
        .expect("request should be sent");
    assert_eq!(order_e2l.earliest_recv_order_timestamp(&link), Some(13));
    assert_eq!(order_l2e.earliest_send_order_timestamp(&link), Some(13));
    assert_eq!(order_e2l.receive(&mut link, 13), Some(request(1)));
    assert_eq!(
        order_l2e.request(&mut link, request(2), i64::MAX),
        Err(BacktestError::Overflow)
    );
    let mut odd = hftbacktest::order_bus::LocalToExch {
        order_latency: Scripted(-1),
    };
    assert_eq!(
        odd.request(&mut link, request(2), 0),
        Err(BacktestError::NegativeLatency)
    );
}

#[test]
fn sorted_maps_keep_their_keys_in_order() {
    let mut map = SortedMap::new();
    for (key, value) in [(5u64, 'e'), (1, 'a'), (3, 'c'), (5, 'E')] {
        map.insert(key, value);
    }
    assert_eq!(map.entries, vec![(1, 'a'), (3, 'c'), (5, 'E')]);
    assert_eq!(map.get(&3), Some(&'c'));
    assert_eq!(map.find(&4), None);
    assert_eq!((map.lower(&3), map.upper(&3)), (1, 2));
    assert_eq!(map.remove(&3), Some('c'));
    assert_eq!(map.remove(&3), None);
    assert!(!map.contains(&3));
    assert_eq!(map.len(), 2);
    let copy = map.copy();
    map.clear();
    assert!(map.is_empty());
    assert_eq!(copy.entries, vec![(1, 'a'), (5, 'E')]);
}

#[test]
fn memory_sources_hold_their_rows() {
    match DataSource::memory(vec![1, 2]) {
        DataSource::Memory(rows) => assert_eq!(*rows, vec![1, 2]),
        DataSource::File { .. } => panic!("rows should stay in memory"),
    }
}
