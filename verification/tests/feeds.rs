use hftbacktest::data::convert::convert_fuse;
use hftbacktest::data::convert::fuse_events;
use hftbacktest::data::convert::order_events;
use hftbacktest::data::convert::parse_snapshot_mode;
use hftbacktest::data::convert::ConvertError;
use hftbacktest::data::convert::ConvertRequest;
use hftbacktest::data::convert::SnapshotMode;
use hftbacktest::data::convert::SourceFile;
use hftbacktest::data::format::StoredEvent;
use hftbacktest::data::fuse::FixedFuse;
use hftbacktest::data::tardis::FeedKind;
use hftbacktest::data::tardis::TardisReader;
use hftbacktest::types::BUY_EVENT;
use hftbacktest::types::DEPTH_BBO_EVENT;
use hftbacktest::types::DEPTH_CLEAR_EVENT;
use hftbacktest::types::DEPTH_EVENT;
use hftbacktest::types::DEPTH_SNAPSHOT_EVENT;
use hftbacktest::types::EXCH_EVENT;
use hftbacktest::types::LOCAL_EVENT;
use hftbacktest::types::SELL_EVENT;
use hftbacktest::types::TRADE_EVENT;
use std::io::Write;

fn event(kind: u64, px: i64, qty: i64, timestamp: i64) -> StoredEvent {
    StoredEvent {
        ev: kind,
        px,
        qty,
        exch_ts: timestamp,
        local_ts: timestamp + 1,
    }
}

fn timed(ev: u64, px: i64, exch_ts: i64, local_ts: i64) -> StoredEvent {
    StoredEvent {
        ev,
        px,
        qty: 1,
        exch_ts,
        local_ts,
    }
}

fn prices(side: &hftbacktest::data::fuse::BookSide) -> Vec<i64> {
    side.levels.entries.iter().map(|entry| entry.0).collect()
}

#[test]
fn crosses_sparse_levels_without_rounding_or_scanning_gaps() {
    let mut fuse = FixedFuse::new();
    fuse.process(event(DEPTH_EVENT | SELL_EVENT, 1, 1, 1));
    fuse.process(event(DEPTH_EVENT | SELL_EVENT, i64::MAX, 1, 1));
    let input = event(DEPTH_EVENT | BUY_EVENT, i64::MAX - 1, 1, 2);
    assert_eq!(
        fuse.process(input),
        vec![input, event(DEPTH_EVENT | SELL_EVENT, 1, 0, 2)]
    );
    assert_eq!(fuse.asks.levels.len(), 1);
}

#[test]
fn ticker_backoff_removes_only_better_levels_and_rejects_stale_updates() {
    let mut fuse = FixedFuse::new();
    fuse.process(event(DEPTH_EVENT | BUY_EVENT, 100, 1, 1));
    fuse.process(event(DEPTH_EVENT | BUY_EVENT, 90, 1, 1));
    assert_eq!(
        fuse.process(event(DEPTH_BBO_EVENT | BUY_EVENT, 95, 2, 3)),
        vec![
            event(DEPTH_EVENT | BUY_EVENT, 95, 2, 3),
            event(DEPTH_EVENT | BUY_EVENT, 100, 0, 3),
        ]
    );
    assert!(fuse
        .process(event(DEPTH_EVENT | BUY_EVENT, 100, 1, 2))
        .is_empty());
    assert_eq!(prices(&fuse.bids), vec![90, 95]);
}

#[test]
fn snapshot_clear_keeps_adjacent_outside_level() {
    let mut fuse = FixedFuse::new();
    fuse.process(event(DEPTH_EVENT | BUY_EVENT, 99, 1, 1));
    fuse.process(event(DEPTH_EVENT | BUY_EVENT, 100, 1, 1));
    fuse.process(event(DEPTH_CLEAR_EVENT | BUY_EVENT, 100, 0, 2));
    assert_eq!(prices(&fuse.bids), vec![99]);
}

#[test]
fn fused_bids_stay_below_asks() {
    let mut fuse = FixedFuse::new();
    fuse.process(event(DEPTH_EVENT | BUY_EVENT, 100, 1, 1));
    fuse.process(event(DEPTH_EVENT | SELL_EVENT, 98, 1, 2));
    assert_eq!(prices(&fuse.bids), Vec::<i64>::new());
    assert_eq!(prices(&fuse.asks), vec![98]);
}

#[test]
fn flushes_snapshot_at_end_of_file() {
    let input = [timed(DEPTH_SNAPSHOT_EVENT | BUY_EVENT, 100, 1, 2)];
    let result = fuse_events(&input, &[], SnapshotMode::Process);
    assert_eq!(result.len(), 2);
    assert_eq!(result[0].ev, DEPTH_CLEAR_EVENT | BUY_EVENT);
    assert_eq!(result[1], input[0]);
    assert!(fuse_events(&input, &[], SnapshotMode::IgnoreSod).is_empty());
}

#[test]
fn orders_both_clocks_without_losing_events_with_identical_timestamps() {
    let input = vec![
        timed(DEPTH_EVENT | BUY_EVENT, 100, 20, 40),
        timed(DEPTH_EVENT | SELL_EVENT, 101, 10, 50),
        timed(DEPTH_EVENT | SELL_EVENT, 102, 10, 50),
    ];
    let result = order_events(input.clone(), 0).expect("timestamps should fit");
    for (flag, exchange) in [(EXCH_EVENT, true), (LOCAL_EVENT, false)] {
        let filtered: Vec<_> = result.iter().filter(|row| row.ev & flag != 0).collect();
        assert_eq!(filtered.len(), input.len());
        assert!(filtered.windows(2).all(|pair| if exchange {
            pair[0].exch_ts <= pair[1].exch_ts
        } else {
            pair[0].local_ts <= pair[1].local_ts
        }));
        let mut prices: Vec<_> = filtered.iter().map(|row| row.px).collect();
        prices.sort();
        assert_eq!(prices, vec![100, 101, 102]);
    }
}

#[test]
fn ordered_rows_carry_a_clock_and_keep_their_other_flags() {
    let input = vec![
        timed(DEPTH_EVENT | BUY_EVENT, 100, 20, 40),
        timed(TRADE_EVENT | SELL_EVENT, 101, 10, 50),
    ];
    let result = order_events(input, 0).expect("timestamps should fit");
    let flags: Vec<(i64, u64)> = result.iter().map(|row| (row.px, row.ev)).collect();
    assert_eq!(
        flags,
        [
            (101, TRADE_EVENT | SELL_EVENT | EXCH_EVENT),
            (100, DEPTH_EVENT | BUY_EVENT | EXCH_EVENT | LOCAL_EVENT),
            (101, TRADE_EVENT | SELL_EVENT | LOCAL_EVENT),
        ]
    );
}

#[test]
fn latency_correction_is_checked_and_empty_input_is_valid() {
    assert!(order_events(vec![], 0)
        .expect("empty input should succeed")
        .is_empty());
    let row = timed(DEPTH_EVENT | BUY_EVENT, 1, 10, 1);
    assert_eq!(
        order_events(vec![row], 5).expect("latency correction should fit")[0].local_ts,
        15
    );
    assert!(order_events(vec![timed(DEPTH_EVENT | BUY_EVENT, 1, i64::MAX, 0)], 1).is_none());
}

fn trades(row: &str) -> TardisReader {
    let csv = format!("exchange,symbol,timestamp,local_timestamp,id,side,price,amount\n{row}\n");
    TardisReader::from_reader("trades.csv".to_string(), FeedKind::Trades, csv.as_bytes())
        .expect("valid header should load")
}

#[test]
fn preserves_prices_beyond_f64_integer_precision() {
    let mut input = trades("binance,BTCUSDT,1,2,\"id,quoted\",buy,92233720368.54775807,0.00000001");
    assert_eq!(
        input.next_events().expect("valid row should parse"),
        Some(vec![StoredEvent {
            ev: TRADE_EVENT | BUY_EVENT,
            exch_ts: 1000,
            local_ts: 2000,
            px: i64::MAX,
            qty: 1,
        }])
    );
    assert!(input.next_events().expect("EOF should parse").is_none());
}

#[test]
fn reports_original_field_and_location() {
    let mut input = trades("binance,BTCUSDT,1,2,id,buy,1e-8,1");
    let message = input
        .next_events()
        .expect_err("scientific notation must fail")
        .message();
    assert!(message.contains("trades.csv record 2 field price value \"1e-8\""));
    assert!(message.contains("plain decimal"));
}

#[test]
fn checks_timestamp_scaling_overflow() {
    let mut input = trades("binance,BTCUSDT,9223372036854775807,2,id,buy,1,1");
    assert!(input
        .next_events()
        .expect_err("timestamp overflow must fail")
        .message()
        .contains("timestamp overflow"));
}

#[test]
fn a_feed_with_other_columns_is_refused() {
    assert!(TardisReader::from_reader("t.csv".to_string(), FeedKind::Trades, b"a,b\n1,2\n").is_err());
}

#[test]
fn a_compressed_feed_reads_like_a_plain_one() {
    let csv = "exchange,symbol,timestamp,local_timestamp,id,side,price,amount\n\
               binance,BTCUSDT,1,2,id,sell,5,2\n";
    let mut encoder =
        flate2::write::GzEncoder::new(Vec::new(), flate2::Compression::default());
    encoder
        .write_all(csv.as_bytes())
        .expect("compression should succeed");
    let packed = encoder.finish().expect("compression should finish");
    let mut reader = TardisReader::open("t.csv.gz".to_string(), FeedKind::Trades, &packed, true)
        .expect("packed feed should open");
    assert_eq!(
        reader.next_events().expect("row should parse"),
        Some(vec![StoredEvent {
            ev: TRADE_EVENT | SELL_EVENT,
            exch_ts: 1000,
            local_ts: 2000,
            px: 500_000_000,
            qty: 200_000_000,
        }])
    );
    assert!(TardisReader::open("t.csv.gz".to_string(), FeedKind::Trades, csv.as_bytes(), true)
        .is_err());
}

#[test]
fn a_damaged_compressed_feed_gives_the_rows_in_front_of_the_damage() {
    let csv = "exchange,symbol,timestamp,local_timestamp,id,side,price,amount\n\
               binance,BTCUSDT,1,2,id,sell,5,2\n\
               binance,BTCUSDT,3,4,id,buy,6,2\n";
    let mut encoder =
        flate2::write::GzEncoder::new(Vec::new(), flate2::Compression::default());
    encoder
        .write_all(csv.as_bytes())
        .expect("compression should succeed");
    let packed = encoder.finish().expect("compression should finish");
    let truncated = &packed[..packed.len() - 8];
    let mut reader = TardisReader::open("t.csv.gz".to_string(), FeedKind::Trades, truncated, true)
        .expect("header row should be readable");
    let mut prices = Vec::new();
    let error = loop {
        match reader.next_events() {
            Ok(events) => prices.push(events.expect("damage should be reported")[0].px),
            Err(error) => break error,
        }
    };
    assert_eq!(prices, [500_000_000, 600_000_000]);
    assert_eq!(error.message(), "failed to read t.csv.gz near record 4");
    assert!(matches!(reader.next_events(), Ok(None)));
    let error = TardisReader::open("t.csv.gz".to_string(), FeedKind::Trades, &packed[..5], true)
        .err()
        .expect("header row should not be readable");
    assert_eq!(error.message(), "failed to read header of t.csv.gz");
}

const TRADES: &str = "exchange,symbol,timestamp,local_timestamp,id,side,price,amount\n\
                      binance,BTCUSDT,10,12,1,buy,101,1\n";
const DEPTH: &str = "exchange,symbol,timestamp,local_timestamp,is_snapshot,side,price,amount\n\
                     binance,BTCUSDT,1,2,true,bid,100,5\n\
                     binance,BTCUSDT,1,2,true,ask,101,5\n\
                     binance,BTCUSDT,20,21,false,bid,100,0\n";

fn source<'a>(path: &'a str, content: &'a str) -> SourceFile<'a> {
    SourceFile {
        path,
        content: content.as_bytes(),
        compressed: false,
    }
}

#[test]
fn conversion_keeps_every_event_on_both_clocks() {
    let events = convert_fuse(ConvertRequest {
        trades: source("trades.csv", TRADES),
        depth: source("depth.csv", DEPTH),
        book_ticker: None,
        snapshot_mode: SnapshotMode::Process,
        base_latency: 0,
    })
    .expect("conversion should succeed");
    let exchange: Vec<i64> = events
        .iter()
        .filter(|row| row.ev & EXCH_EVENT != 0)
        .map(|row| row.exch_ts)
        .collect();
    let local: Vec<i64> = events
        .iter()
        .filter(|row| row.ev & LOCAL_EVENT != 0)
        .map(|row| row.local_ts)
        .collect();
    assert_eq!(exchange.len(), 6);
    assert_eq!(local.len(), 6);
    assert!(exchange.windows(2).all(|pair| pair[0] <= pair[1]));
    assert!(local.windows(2).all(|pair| pair[0] <= pair[1]));
}

#[test]
fn conversion_refuses_a_negative_base_latency() {
    let request = ConvertRequest {
        trades: source("trades.csv", TRADES),
        depth: source("depth.csv", DEPTH),
        book_ticker: None,
        snapshot_mode: SnapshotMode::Process,
        base_latency: -1,
    };
    assert!(matches!(
        convert_fuse(request),
        Err(ConvertError::NegativeBaseLatency)
    ));
}

#[test]
fn conversion_reports_feeds_that_are_out_of_order() {
    let backwards = "exchange,symbol,timestamp,local_timestamp,id,side,price,amount\n\
                     binance,BTCUSDT,10,12,1,buy,101,1\n\
                     binance,BTCUSDT,10,11,2,buy,101,1\n";
    let request = ConvertRequest {
        trades: source("trades.csv", backwards),
        depth: source("depth.csv", DEPTH),
        book_ticker: None,
        snapshot_mode: SnapshotMode::Process,
        base_latency: 0,
    };
    let error = convert_fuse(request).expect_err("feed should be refused");
    assert!(matches!(&error, ConvertError::OutOfOrder { path } if path == "trades.csv"));
    assert!(error.message().contains("trades.csv"));
}

#[test]
fn conversion_reports_bad_fields() {
    let bad = "exchange,symbol,timestamp,local_timestamp,id,side,price,amount\n\
               binance,BTCUSDT,10,12,1,buy,x,1\n";
    let request = ConvertRequest {
        trades: source("trades.csv", bad),
        depth: source("depth.csv", DEPTH),
        book_ticker: None,
        snapshot_mode: SnapshotMode::Process,
        base_latency: 0,
    };
    assert!(matches!(convert_fuse(request), Err(ConvertError::Feed(_))));
}

#[test]
fn conversion_reports_corrected_timestamps_that_do_not_fit() {
    let early = "exchange,symbol,timestamp,local_timestamp,id,side,price,amount\n\
                 binance,BTCUSDT,9223372036854775,1,1,buy,101,1\n";
    let depth = "exchange,symbol,timestamp,local_timestamp,is_snapshot,side,price,amount\n";
    let request = ConvertRequest {
        trades: source("trades.csv", early),
        depth: source("depth.csv", depth),
        book_ticker: None,
        snapshot_mode: SnapshotMode::Process,
        base_latency: i64::MAX,
    };
    assert!(matches!(
        convert_fuse(request),
        Err(ConvertError::TimestampOverflow)
    ));
}

#[test]
fn snapshot_modes_are_read_from_their_names() {
    assert_eq!(
        parse_snapshot_mode(&"process".to_string()),
        Some(SnapshotMode::Process)
    );
    assert_eq!(
        parse_snapshot_mode(&"ignore".to_string()),
        Some(SnapshotMode::Ignore)
    );
    assert_eq!(
        parse_snapshot_mode(&"ignore_sod".to_string()),
        Some(SnapshotMode::IgnoreSod)
    );
    assert_eq!(parse_snapshot_mode(&"Process".to_string()), None);
}
