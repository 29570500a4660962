use hftbacktest::assettype::LinearAsset;
use hftbacktest::data::reader::Cache;
use hftbacktest::data::reader::DataSource;
use hftbacktest::data::reader::FeedOffset;
use hftbacktest::data::reader::Preprocessor;
use hftbacktest::data::reader::Reader;
use hftbacktest::data::reader::ReaderError;
use hftbacktest::data::reader::Unchanged;
use hftbacktest::decimal::Decimal;
use hftbacktest::depth::BTreeMarketDepth;
use hftbacktest::depth::MarketDepth;
use hftbacktest::error::BacktestError;
use hftbacktest::evs::EventIntentKind;
use hftbacktest::evs::EventSet;
use hftbacktest::lifecycle::NewOrder;
use hftbacktest::lifecycle::OrderRequest;
use hftbacktest::lifecycle::OrderUpdate;
use hftbacktest::models::fee::CommonFees;
use hftbacktest::models::fee::TradingValueFeeModel;
use hftbacktest::models::latency::ConstantLatency;
use hftbacktest::models::queue::RiskAdverseQueueModel;
use hftbacktest::order_bus::order_bus;
use hftbacktest::processor::local::Local;
use hftbacktest::processor::nopartialfillexchange::NoPartialFillExchange;
use hftbacktest::replay::ExchangeCall;
use hftbacktest::replay::LocalCall;
use hftbacktest::rules::TickSizeChange;
use hftbacktest::rules::TickSizeSchedule;
use hftbacktest::snapshot::Backtest;
use hftbacktest::snapshot::BacktestProcessorState;
use hftbacktest::snapshot::SnapshotError;
use hftbacktest::state::State;
use hftbacktest::types::ElapseResult;
use hftbacktest::types::Event;
use hftbacktest::types::OrdType;
use hftbacktest::types::PriceMatch;
use hftbacktest::types::Side;
use hftbacktest::types::TimeInForce;
use hftbacktest::types::BUY_EVENT;
use hftbacktest::types::DEPTH_EVENT;
use hftbacktest::types::DEPTH_SNAPSHOT_EVENT;
use hftbacktest::types::EXCH_EVENT;
use hftbacktest::types::LOCAL_EVENT;
use hftbacktest::types::SELL_EVENT;
use hftbacktest::types::TRADE_EVENT;
use std::sync::Arc;

type Fees = TradingValueFeeModel<CommonFees>;
type TestLocal = Local<LinearAsset, ConstantLatency, BTreeMarketDepth, Fees>;
type TestExchange = NoPartialFillExchange<
    LinearAsset,
    ConstantLatency,
    RiskAdverseQueueModel<BTreeMarketDepth>,
    BTreeMarketDepth,
    Fees,
>;
type TestBacktest<F> = Backtest<TestLocal, TestExchange, OrderRequest, OrderUpdate, F>;

fn whole(value: i64) -> Decimal {
    Decimal::from_int(value)
}

fn event(timestamp: i64, flag: u64, price: i64, qty: i64) -> Event {
    Event {
        ev: flag | EXCH_EVENT | LOCAL_EVENT,
        exch_ts: timestamp,
        local_ts: timestamp,
        px: whole(price),
        qty: whole(qty),
    }
}

fn events() -> Vec<Event> {
    vec![
        event(0, DEPTH_SNAPSHOT_EVENT | BUY_EVENT, 100, 10),
        event(0, DEPTH_SNAPSHOT_EVENT | SELL_EVENT, 101, 10),
        event(0, DEPTH_EVENT | BUY_EVENT, 99, 15),
        event(0, DEPTH_EVENT | SELL_EVENT, 102, 15),
        event(10, TRADE_EVENT | SELL_EVENT, 100, 12),
        event(12, TRADE_EVENT | BUY_EVENT, 101, 12),
        event(20, TRADE_EVENT | SELL_EVENT, 100, 1),
        event(22, TRADE_EVENT | BUY_EVENT, 101, 1),
        event(30, TRADE_EVENT | SELL_EVENT, 100, 10),
        event(32, TRADE_EVENT | BUY_EVENT, 101, 10),
        event(45, DEPTH_EVENT | BUY_EVENT, 100, 7),
        event(45, DEPTH_EVENT | SELL_EVENT, 101, 8),
        event(60, 0, 0, 0),
    ]
}

/// Adds an asset to a replay that has not begun.
fn add_asset<F: Preprocessor<Event>>(
    hbt: &mut TestBacktest<F>,
    reader: Reader<Event, F>,
    latency: i64,
    snapshots: bool,
) {
    let state = || {
        State::new(
            LinearAsset::new(Decimal::one()),
            TradingValueFeeModel::new(CommonFees::new(Decimal::new(9, 5), Decimal::new(27, 5))),
        )
    };
    let schedule = TickSizeSchedule::new(vec![TickSizeChange {
        effective_from: 0,
        tick_size: Decimal::new(1, 2),
    }])
    .expect("tick size schedule should be valid");
    let (link, order_e2l, order_l2e) = order_bus(ConstantLatency::new(latency, latency));
    let mut local = Local::new(BTreeMarketDepth::new(), state(), 8, order_l2e);
    let mut exchange = NoPartialFillExchange::new(
        BTreeMarketDepth::new(),
        state(),
        RiskAdverseQueueModel::new(),
        order_e2l,
        schedule,
    );
    if snapshots {
        local = local.enable_snapshot();
        exchange = exchange.enable_snapshot();
    }
    hbt.links.push(link);
    hbt.local.push(BacktestProcessorState {
        data: Arc::new(Vec::new()),
        processor: local,
        reader: reader.fork(),
        row: 0,
    });
    hbt.exch.push(BacktestProcessorState {
        data: Arc::new(Vec::new()),
        processor: exchange,
        reader,
        row: 0,
    });
    hbt.evs = EventSet::new(hbt.links.len());
}

fn empty<F>() -> TestBacktest<F> {
    Backtest {
        cur_ts: i64::MAX,
        evs: EventSet::new(1),
        links: Vec::new(),
        local: Vec::new(),
        exch: Vec::new(),
    }
}

fn memory(chunks: Vec<Vec<Event>>) -> Reader<Event, Unchanged> {
    Reader::builder()
        .parallel_load(true)
        .data(chunks.into_iter().map(DataSource::memory).collect())
        .build()
        .expect("reader should build")
}

/// Moves to the next event that a processor sees.
fn seek<P, F: Preprocessor<Event>>(
    state: &mut BacktestProcessorState<P, F>,
    seen: impl Fn(&P, &Event) -> Option<i64>,
) -> Option<i64> {
    loop {
        while state.row < state.data.len() {
            if let Some(timestamp) = seen(&state.processor, &state.data[state.row]) {
                return Some(timestamp);
            }
            state.row += 1;
        }
        match state.reader.next_data(&mut Cache::new()) {
            Ok(chunk) => state.data = chunk.expect("memory should be available at once"),
            Err(ReaderError::EndOfData) => return None,
            Err(error) => panic!("{}", error.message()),
        }
        state.row = 0;
    }
}

fn next_local_event<F: Preprocessor<Event>>(hbt: &mut TestBacktest<F>, asset: usize) {
    match seek(&mut hbt.local[asset], TestLocal::event_seen_timestamp) {
        Some(timestamp) => hbt.evs.update_local_data(asset, timestamp),
        None => hbt.evs.invalidate_local_data(asset),
    }
}

fn next_exchange_event<F: Preprocessor<Event>>(hbt: &mut TestBacktest<F>, asset: usize) {
    match seek(&mut hbt.exch[asset], TestExchange::event_seen_timestamp) {
        Some(timestamp) => hbt.evs.update_exch_data(asset, timestamp),
        None => hbt.evs.invalidate_exch_data(asset),
    }
}

fn next_messages<F: Preprocessor<Event>>(hbt: &mut TestBacktest<F>, asset: usize) {
    let local = hbt.local[asset]
        .processor
        .earliest_recv_order_timestamp(&hbt.links[asset]);
    hbt.evs.update_local_order(asset, local);
    let exchange = hbt.exch[asset]
        .processor
        .earliest_recv_order_timestamp(&hbt.links[asset]);
    hbt.evs.update_exch_order(asset, exchange);
}

fn goto<F: Preprocessor<Event>>(hbt: &mut TestBacktest<F>, timestamp: i64) -> ElapseResult {
    loop {
        let Some(intent) = hbt.evs.next() else {
            return ElapseResult::EndOfData;
        };
        if intent.timestamp > timestamp {
            hbt.cur_ts = timestamp;
            return ElapseResult::Reached;
        }
        hbt.cur_ts = intent.timestamp;
        let asset = intent.asset_no;
        let link = &mut hbt.links[asset];
        match intent.kind {
            EventIntentKind::LocalData => {
                let state = &mut hbt.local[asset];
                state.processor.process(&state.data[state.row]);
                state.row += 1;
                next_local_event(hbt, asset);
            }
            EventIntentKind::LocalOrder => {
                hbt.local[asset]
                    .processor
                    .process_recv_order(link, intent.timestamp, None)
                    .expect("update should be processed");
                next_messages(hbt, asset);
            }
            EventIntentKind::ExchData => {
                let state = &mut hbt.exch[asset];
                state
                    .processor
                    .process(link, &state.data[state.row])
                    .expect("event should be processed");
                state.row += 1;
                next_exchange_event(hbt, asset);
                next_messages(hbt, asset);
            }
            EventIntentKind::ExchOrder => {
                hbt.exch[asset]
                    .processor
                    .process_recv_order(link, intent.timestamp)
                    .expect("request should be processed");
                next_messages(hbt, asset);
            }
        }
    }
}

fn elapse<F: Preprocessor<Event>>(hbt: &mut TestBacktest<F>, duration: i64) -> ElapseResult {
    if hbt.cur_ts == i64::MAX {
        for asset in 0..hbt.links.len() {
            next_local_event(hbt, asset);
            next_exchange_event(hbt, asset);
        }
        let Some(first) = hbt.evs.next() else {
            return ElapseResult::EndOfData;
        };
        hbt.cur_ts = first.timestamp;
    }
    let until = hbt.cur_ts + duration;
    goto(hbt, until)
}

fn advance<F: Preprocessor<Event>>(hbt: &mut TestBacktest<F>, timestamp: i64) {
    assert!(timestamp >= hbt.cur_ts);
    goto(hbt, timestamp);
}

fn goto_end<F: Preprocessor<Event>>(hbt: &mut TestBacktest<F>) {
    assert_eq!(goto(hbt, i64::MAX), ElapseResult::EndOfData);
}

fn submit<F: Preprocessor<Event>>(
    hbt: &mut TestBacktest<F>,
    asset: usize,
    order_id: u64,
    side: Side,
    price: i64,
    qty: i64,
) {
    let now = hbt.cur_ts;
    hbt.local[asset]
        .processor
        .submit_order(
            &mut hbt.links[asset],
            order_id,
            side,
            whole(price),
            PriceMatch::Explicit,
            whole(qty),
            OrdType::Limit,
            TimeInForce::GTX,
            now,
        )
        .expect("order should be submitted");
    next_messages(hbt, asset);
}

fn view<F>(hbt: &TestBacktest<F>) -> (i64, Vec<String>) {
    (
        hbt.cur_ts,
        hbt.local
            .iter()
            .map(|state| format!("{:?}", state.processor))
            .collect(),
    )
}

fn position<F>(hbt: &TestBacktest<F>, asset: usize) -> Decimal {
    hbt.local[asset].processor.position()
}

fn replay(latency: i64) -> TestBacktest<Unchanged> {
    let mut hbt = empty();
    add_asset(&mut hbt, memory(vec![events()]), latency, true);
    elapse(&mut hbt, 0);
    hbt
}

#[test]
fn snapshot_restore_keeps_standard_reader_state_shareable() {
    let mut backtest = empty();
    add_asset(&mut backtest, memory(Vec::new()), 0, true);
    let snapshot = backtest.snapshot().unwrap();
    let restored = snapshot.restore().unwrap();
    assert_eq!(snapshot.timestamp(), restored.cur_ts);
}

#[test]
fn fork_matches_checkpoint_with_pending_orders_after_source_drop() {
    for timestamp in [0, 11, 15] {
        let mut original = replay(3);
        submit(&mut original, 0, 1, Side::Buy, 100, 5);
        advance(&mut original, timestamp);
        let before = view(&original);
        let mut forked = original.fork().unwrap();
        assert_eq!(view(&original), before);
        assert_eq!(view(&forked), before);
        let mut restored = original.snapshot().unwrap().restore().unwrap();
        drop(original);
        for next_timestamp in [timestamp + 1, 25, 35, 50] {
            advance(&mut forked, next_timestamp);
            advance(&mut restored, next_timestamp);
            assert_eq!(view(&forked), view(&restored));
        }
        assert_eq!(position(&forked, 0), whole(5));
    }
}

#[test]
fn empty_trade_buffers_keep_their_retention_capacity() {
    let mut original = replay(0);
    let mut restored = original.snapshot().unwrap().restore().unwrap();
    advance(&mut original, 15);
    advance(&mut restored, 15);
    assert_eq!(view(&original), view(&restored));
    assert_eq!(restored.local[0].processor.last_trades().len(), 2);
    original.local[0].processor.clear_last_trades();
    let mut empty_again = original.snapshot().unwrap().restore().unwrap();
    advance(&mut original, 40);
    advance(&mut empty_again, 40);
    assert_eq!(view(&original), view(&empty_again));
    assert_eq!(empty_again.local[0].processor.last_trades().len(), 4);
}

#[test]
fn memory_chunks_can_be_revisited_after_source_finishes_and_is_dropped() {
    let feed = events();
    let sources = feed.chunks(3).map(|chunk| chunk.to_vec()).collect();
    let mut original = empty();
    add_asset(&mut original, memory(sources), 0, true);
    elapse(&mut original, 0);
    let snapshot = original.snapshot().unwrap();
    goto_end(&mut original);
    let expected = view(&original);
    drop(original);
    for _ in 0..5 {
        let mut restored = snapshot.restore().unwrap();
        goto_end(&mut restored);
        assert_eq!(view(&restored), expected);
    }
}

#[test]
fn initialized_empty_and_end_of_data_states_restore() {
    let mut original = empty();
    add_asset(&mut original, memory(vec![events()]), 0, true);
    let mut restored = original.snapshot().unwrap().restore().unwrap();
    elapse(&mut original, 0);
    elapse(&mut restored, 0);
    assert_eq!(view(&original), view(&restored));
    goto_end(&mut original);
    let mut at_end = original.snapshot().unwrap().restore().unwrap();
    assert_eq!(elapse(&mut at_end, 100), ElapseResult::EndOfData);
    assert_eq!(view(&original), view(&at_end));
    let mut nothing = empty();
    add_asset(&mut nothing, memory(Vec::new()), 0, true);
    assert_eq!(elapse(&mut nothing, 0), ElapseResult::EndOfData);
    let mut again = nothing.snapshot().unwrap().restore().unwrap();
    assert_eq!(elapse(&mut again, 0), ElapseResult::EndOfData);
    let mut empty_chunk = empty();
    add_asset(&mut empty_chunk, memory(vec![Vec::new()]), 0, true);
    elapse(&mut empty_chunk, 0);
    let snapshot = empty_chunk.snapshot().unwrap();
    for _ in 0..4 {
        let mut restored = snapshot.restore().unwrap();
        assert_eq!(elapse(&mut restored, 0), ElapseResult::EndOfData);
    }
}

#[test]
fn event_cursors_and_simultaneous_multi_asset_events_restore() {
    let mut feed = events();
    for event in &mut feed {
        event.local_ts += 2;
    }
    let mut original = empty();
    add_asset(&mut original, memory(vec![feed.clone()]), 1, true);
    add_asset(&mut original, memory(vec![feed]), 1, true);
    elapse(&mut original, 3);
    for asset in 0..2 {
        submit(&mut original, asset, 1, Side::Buy, 100, 5);
    }
    advance(&mut original, 11);
    let mut restored = original.snapshot().unwrap().restore().unwrap();
    for timestamp in [12, 13, 20, 21, 22, 35, 50] {
        advance(&mut original, timestamp);
        advance(&mut restored, timestamp);
        assert_eq!(view(&original), view(&restored));
    }
    assert_eq!(
        (position(&original, 0), position(&original, 1)),
        (whole(5), whole(5))
    );
}

#[test]
fn shared_feed_buffers_separate_on_mutation() {
    let mut data = Arc::new(events());
    let reader = Reader::builder()
        .data(vec![DataSource::Memory(data.clone())])
        .build()
        .expect("reader should build");
    let mut original = empty();
    add_asset(&mut original, reader, 0, true);
    elapse(&mut original, 0);
    let mut restored = original.snapshot().unwrap().restore().unwrap();
    Arc::make_mut(&mut data)[10].qty = whole(123);
    advance(&mut original, 50);
    advance(&mut restored, 50);
    assert_eq!(view(&original), view(&restored));
    assert_eq!(
        restored.local[0].processor.depth().bid_qty_at_price(whole(100)),
        whole(7)
    );
    assert_eq!(data[10].qty, whole(123));
}

#[test]
fn ordinary_build_explicitly_rejects_snapshot_and_fork() {
    let mut original = empty();
    add_asset(&mut original, memory(vec![events()]), 0, false);
    assert!(matches!(
        original.snapshot(),
        Err(SnapshotError::Unsupported(_))
    ));
    assert!(matches!(
        original.fork(),
        Err(SnapshotError::Unsupported(_))
    ));
}

#[test]
fn no_partial_fill_exchange_can_restore_pending_orders() {
    let mut original = replay(2);
    submit(&mut original, 0, 1, Side::Sell, 101, 5);
    let mut restored = original.snapshot().unwrap().restore().unwrap();
    advance(&mut original, 50);
    advance(&mut restored, 50);
    assert_eq!(view(&original), view(&restored));
    assert_eq!(position(&restored, 0), whole(-5));
}

#[test]
fn preprocessing_is_not_repeated_after_snapshot_restore() {
    let reader = Reader::builder()
        .data(vec![DataSource::memory(events())])
        .preprocess(FeedOffset { latency_offset: 2 })
        .build()
        .expect("reader should build");
    let mut original = empty();
    add_asset(&mut original, reader, 0, true);
    elapse(&mut original, 5);
    let mut restored = original.snapshot().unwrap().restore().unwrap();
    goto_end(&mut original);
    goto_end(&mut restored);
    assert_eq!(view(&original), view(&restored));
    assert_eq!(restored.local[0].processor.last_trades()[0].local_ts, 12);
}

#[test]
fn the_same_calls_leave_source_fork_and_restored_replay_equal() {
    let mut source = replay(3);
    submit(&mut source, 0, 1, Side::Buy, 100, 5);
    let snapshot = source.snapshot().expect("snapshots are enabled");
    let mut forked = source.fork().expect("snapshots are enabled");
    let mut restored = snapshot.restore().expect("snapshots are enabled");
    let order = NewOrder {
        order_id: 2,
        price: whole(99),
        price_match: PriceMatch::Explicit,
        qty: whole(1),
        side: Side::Buy,
        time_in_force: TimeInForce::GTC,
        order_type: OrdType::Limit,
    };
    let mut answers = Vec::new();
    for replay in [&mut source, &mut forked, &mut restored] {
        let link = &mut replay.links[0];
        let local = &mut replay.local[0].processor;
        let exchange = &mut replay.exch[0].processor;
        let results = [
            local.replay(link, &LocalCall::Submit { order, timestamp: 1 }),
            local.replay(link, &LocalCall::Submit { order, timestamp: 1 }),
            exchange.replay(link, &ExchangeCall::Receive(3)),
            exchange.replay(link, &ExchangeCall::Receive(4)),
            exchange.replay(
                link,
                &ExchangeCall::Process(event(5, TRADE_EVENT | SELL_EVENT, 100, 20)),
            ),
            local.replay(
                link,
                &LocalCall::Receive {
                    timestamp: 6,
                    wait: Some(1),
                },
            ),
            local.replay(link, &LocalCall::Process(event(6, DEPTH_EVENT | BUY_EVENT, 100, 3))),
            local.replay(
                link,
                &LocalCall::Receive {
                    timestamp: 7,
                    wait: Some(1),
                },
            ),
            local.replay(
                link,
                &LocalCall::Cancel {
                    order_id: 2,
                    timestamp: 8,
                },
            ),
            local.replay(link, &LocalCall::ClearLastTrades),
            local.replay(link, &LocalCall::ClearInactiveOrders),
        ];
        answers.push(results);
    }
    assert_eq!(answers[0][1], Err(BacktestError::OrderIdExist));
    assert_eq!(answers[0][5], Ok(true));
    assert_eq!(answers[0][8], Ok(false));
    assert_eq!(answers[0], answers[1]);
    assert_eq!(answers[0], answers[2]);
    assert_eq!(view(&source), view(&forked));
    assert_eq!(view(&source), view(&restored));
    assert_eq!(
        format!("{:?}", source.exch[0].processor),
        format!("{:?}", restored.exch[0].processor)
    );
}
