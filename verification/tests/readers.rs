use hftbacktest::data::reader::adjust_feed_latency;
use hftbacktest::data::reader::Cache;
use hftbacktest::data::reader::DataSource;
use hftbacktest::data::reader::FeedOffset;
use hftbacktest::data::reader::LoadFault;
use hftbacktest::data::reader::Preprocessor;
use hftbacktest::data::reader::Reader;
use hftbacktest::data::reader::ReaderError;
use hftbacktest::data::reader::Unchanged;
use hftbacktest::decimal::Decimal;
use hftbacktest::models::latency::adjust_order_latency;
use hftbacktest::models::latency::Interpolation;
use hftbacktest::models::latency::IntpOrderLatency;
use hftbacktest::models::latency::LatencyFault;
use hftbacktest::models::latency::LatencyOffset;
use hftbacktest::models::latency::LatencyStep;
use hftbacktest::models::latency::OrderLatencyRow;
use hftbacktest::types::Event;
use std::sync::Arc;

#[derive(Clone, Copy, Debug, PartialEq, Eq)]
struct Row(i64);

fn load_rows(loads: &mut usize) -> Result<Vec<Row>, LoadFault> {
    *loads += 1;
    Ok(vec![Row(1), Row(2)])
}

fn file(path: &str, extension: &str) -> DataSource<Row> {
    DataSource::file(path.to_string(), Some(extension.to_string()))
}

#[test]
fn cloned_readers_share_published_chunks() {
    let mut loads = 0;
    let reader = Reader::builder()
        .data(vec![file("rows.npz", "npz")])
        .build()
        .expect("reader should build");
    let mut cache = Cache::new();
    let mut first = reader.fork();
    let mut second = reader;
    assert!(first
        .next_data(&mut cache)
        .expect("file should be asked for")
        .is_none());
    while let Some(key) = cache.take_request() {
        assert_eq!(first.path(key), Some("rows.npz".to_string()));
        let loaded = load_rows(&mut loads);
        first.publish(&mut cache, key, loaded);
    }
    let first_data = first
        .next_data(&mut cache)
        .expect("first reader should load")
        .expect("chunk should be there");
    let second_data = second
        .next_data(&mut cache)
        .expect("second reader should share")
        .expect("chunk should be there");
    assert!(cache.take_request().is_none());
    assert!(Arc::ptr_eq(&first_data, &second_data));
    assert_eq!(loads, 1);
}

#[derive(Clone, Copy)]
struct AddOne;

impl Preprocessor<Row> for AddOne {
    fn process(&self, rows: Vec<Row>) -> Result<Vec<Row>, LoadFault> {
        Ok(rows.into_iter().map(|row| Row(row.0 + 1)).collect())
    }
}

#[test]
fn preprocesses_memory_before_publishing() {
    let mut reader = Reader::builder()
        .data(vec![DataSource::memory(vec![Row(1), Row(2)])])
        .preprocess(AddOne)
        .build()
        .expect("reader should build");
    let mut cache = Cache::new();
    assert_eq!(
        reader
            .next_data(&mut cache)
            .expect("memory data should be available")
            .expect("memory data should be there at once")
            .as_slice(),
        [Row(2), Row(3)]
    );
    assert!(matches!(
        reader.next_data(&mut cache),
        Err(ReaderError::EndOfData)
    ));
}

#[test]
fn files_are_loaded_ahead_and_preprocessed() {
    let mut reader = Reader::builder()
        .parallel_load(true)
        .data(vec![file("a.npz", "npz"), file("b.npz", "npz")])
        .preprocess(AddOne)
        .build()
        .expect("reader should build");
    let mut cache = Cache::new();
    assert!(reader.next_data(&mut cache).expect("asks").is_none());
    assert_eq!(cache.take_request(), Some(0));
    assert_eq!(cache.take_request(), Some(1));
    reader.publish(&mut cache, 0, Ok(vec![Row(4)]));
    reader.publish(&mut cache, 1, Err(LoadFault::Unreadable(3)));
    let chunk = reader
        .next_data(&mut cache)
        .expect("first chunk should load")
        .expect("first chunk should be there");
    assert_eq!(chunk.as_slice(), [Row(5)]);
    let error = reader
        .next_data(&mut cache)
        .expect_err("second chunk could not be read");
    assert!(matches!(
        &error,
        ReaderError::LoadFailed(path, LoadFault::Unreadable(3)) if path == "b.npz"
    ));
    assert_eq!(error.message(), "failed to read b.npz");
}

#[test]
fn other_extensions_are_refused() {
    let mut reader = Reader::builder()
        .data(vec![file("rows.csv", "csv")])
        .build()
        .expect("reader should build");
    let mut cache = Cache::new();
    let error = reader
        .next_data(&mut cache)
        .expect_err("extension should be refused");
    assert_eq!(
        error.message(),
        "unsupported data file extension: rows.csv"
    );
}

#[test]
fn chunks_are_dropped_after_their_last_holder() {
    let mut first = Reader::builder()
        .data(vec![file("rows.npz", "npz")])
        .build()
        .expect("reader should build");
    let mut second = first.fork();
    let mut cache = Cache::new();
    assert!(first.next_data(&mut cache).expect("asks").is_none());
    assert_eq!(cache.take_request(), Some(0));
    first.publish(&mut cache, 0, Ok(vec![Row(1)]));
    assert!(first.next_data(&mut cache).expect("chunk").is_some());
    cache.release(0);
    assert!(second.next_data(&mut cache).expect("asks again").is_none());
    assert_eq!(cache.take_request(), Some(0));
}

#[test]
fn rows_that_are_not_changed_are_shared() {
    let rows = Arc::new(vec![Row(1), Row(2)]);
    let mut reader = Reader::builder()
        .data(vec![DataSource::Memory(Arc::clone(&rows))])
        .build()
        .expect("reader should build");
    let chunk = reader
        .next_data(&mut Cache::new())
        .expect("memory data should be available")
        .expect("memory data should be there at once");
    assert!(Arc::ptr_eq(&chunk, &rows));
    let latencies = Arc::new(vec![row(1, 4, 6)]);
    for (latency_offset, shared) in [(0, true), (1, false)] {
        let mut reader = Reader::builder()
            .preprocess(LatencyOffset { latency_offset })
            .data(vec![DataSource::Memory(Arc::clone(&latencies))])
            .build()
            .expect("reader should build");
        let chunk = reader
            .next_data(&mut Cache::new())
            .expect("memory data should be available")
            .expect("memory data should be there at once");
        assert_eq!(Arc::ptr_eq(&chunk, &latencies), shared);
    }
}

/// The next chunk of a reader, which is loaded where it is not there.
fn awaited(
    reader: &mut Reader<Row, Unchanged>,
    cache: &mut Cache<Row>,
    loads: &mut Vec<usize>,
) -> Result<i64, String> {
    loop {
        match reader.next_data(cache) {
            Ok(Some(rows)) => return Ok(rows[0].0),
            Ok(None) => {}
            Err(error) => return Err(error.message()),
        }
        let key = cache.take_request().expect("chunk should be in line");
        loads.push(key);
        let loaded = if key == 2 {
            Err(LoadFault::Unreadable(0))
        } else {
            Ok(vec![Row(key as i64)])
        };
        reader.publish(cache, key, loaded);
    }
}

#[test]
fn cursors_are_given_every_chunk_in_order_whether_loaded_ahead_or_not() {
    for parallel_load in [false, true] {
        let mut loads = Vec::new();
        let mut cache = Cache::new();
        let mut first = Reader::builder()
            .parallel_load(parallel_load)
            .data(vec![
                file("0.npz", "npz"),
                DataSource::memory(vec![Row(10)]),
                file("2.npz", "npz"),
            ])
            .build()
            .expect("reader should build");
        assert_eq!(awaited(&mut first, &mut cache, &mut loads), Ok(0));
        let mut second = first.fork();
        assert_eq!(awaited(&mut first, &mut cache, &mut loads), Ok(10));
        assert_eq!(second.next_place(), 1);
        let failed = Err("failed to read 2.npz".to_string());
        assert_eq!(awaited(&mut first, &mut cache, &mut loads), failed);
        assert_eq!(awaited(&mut first, &mut cache, &mut loads), failed);
        assert_eq!(awaited(&mut second, &mut cache, &mut loads), Ok(10));
        assert_eq!(awaited(&mut second, &mut cache, &mut loads), failed);
        assert_eq!((first.next_place(), second.next_place()), (2, 2));
        assert_eq!(loads, [0, 2]);
    }
    let mut short = Reader::builder()
        .data(vec![file("0.npz", "npz")])
        .build()
        .expect("reader should build");
    let mut cache = Cache::new();
    let mut loads = Vec::new();
    assert_eq!(awaited(&mut short, &mut cache, &mut loads), Ok(0));
    for _ in 0..2 {
        assert_eq!(
            awaited(&mut short, &mut cache, &mut loads),
            Err("end of data".to_string())
        );
    }
}

#[test]
fn adjusting_stops_at_the_first_fault() {
    let mut events = vec![feed(1, 15), feed(9, 10), feed(1, 30)];
    assert_eq!(
        adjust_feed_latency(&mut events, -2),
        Err(LoadFault::LocalNotAfterExchange)
    );
    assert_eq!(
        [events[0].local_ts, events[1].local_ts, events[2].local_ts],
        [13, 8, 30]
    );
    let mut events = vec![feed(1, 5), feed(1, i64::MAX)];
    assert_eq!(
        adjust_feed_latency(&mut events, 1),
        Err(LoadFault::LocalTimestampOverflow)
    );
    assert_eq!([events[0].local_ts, events[1].local_ts], [6, i64::MAX]);
    let mut rows = vec![row(1, 4, 6), row(1, 2, i64::MAX), row(1, 5, 7)];
    assert_eq!(
        adjust_order_latency(&mut rows, 1),
        Err(LoadFault::ResponseTimestampOverflow)
    );
    assert_eq!(rows, [row(1, 5, 8), row(1, 3, i64::MAX), row(1, 5, 7)]);
}

fn feed(exch_ts: i64, local_ts: i64) -> Event {
    Event {
        ev: 0,
        exch_ts,
        local_ts,
        px: Decimal::zero(),
        qty: Decimal::zero(),
    }
}

#[test]
fn feed_offsets_keep_events_behind_the_exchange() {
    let mut events = vec![feed(1, 5), feed(2, 6)];
    assert_eq!(adjust_feed_latency(&mut events, 10), Ok(()));
    assert_eq!((events[0].local_ts, events[1].local_ts), (15, 16));
    assert_eq!(
        adjust_feed_latency(&mut events, -14),
        Err(LoadFault::LocalNotAfterExchange)
    );
    assert_eq!(
        adjust_feed_latency(&mut vec![feed(1, 5)], i64::MAX),
        Err(LoadFault::LocalTimestampOverflow)
    );
    let moved = FeedOffset { latency_offset: 1 }
        .process(vec![feed(1, 5)])
        .expect("offset should fit");
    assert_eq!(moved[0].local_ts, 6);
}

fn row(req_ts: i64, exch_ts: i64, resp_ts: i64) -> OrderLatencyRow {
    OrderLatencyRow {
        req_ts,
        exch_ts,
        resp_ts,
    }
}

#[test]
fn latency_offsets_lengthen_both_latencies() {
    let mut rows = vec![row(1, 4, 6)];
    assert_eq!(adjust_order_latency(&mut rows, 10), Ok(()));
    assert_eq!(rows, vec![row(1, 14, 26)]);
    assert_eq!(
        adjust_order_latency(&mut rows, i64::MAX),
        Err(LoadFault::LatencyOffsetOverflow)
    );
    assert_eq!(
        adjust_order_latency(&mut vec![row(1, i64::MAX, 2)], 1),
        Err(LoadFault::ExchangeTimestampOverflow)
    );
    assert_eq!(
        adjust_order_latency(&mut vec![row(1, 2, i64::MAX)], 1),
        Err(LoadFault::ResponseTimestampOverflow)
    );
}

fn latency_model(
    chunks: Vec<Vec<OrderLatencyRow>>,
) -> (IntpOrderLatency, Cache<OrderLatencyRow>) {
    let sources = chunks.into_iter().map(DataSource::memory).collect();
    let mut model = IntpOrderLatency::new(sources, 0).expect("rows should be valid");
    let mut cache = Cache::new();
    assert_eq!(
        model.refill(&mut cache).expect("memory should be available"),
        true
    );
    (model, cache)
}

#[test]
fn latencies_are_found_between_rows_and_across_chunks() {
    let (mut model, mut cache) = latency_model(vec![
        vec![row(10, 14, 20), row(20, 26, 30)],
        vec![row(30, 31, 40)],
    ]);
    assert_eq!(model.entry(&mut cache, 5), Ok(LatencyStep::Latency(4)));
    assert_eq!(
        model.entry(&mut cache, 12),
        Ok(LatencyStep::Between(Interpolation {
            timestamp: 12,
            first_timestamp: 10,
            first_latency: 4,
            second_timestamp: 20,
            second_latency: 6,
        }))
    );
    assert_eq!(
        model.response(&mut cache, 14),
        Ok(LatencyStep::Between(Interpolation {
            timestamp: 14,
            first_timestamp: 14,
            first_latency: 6,
            second_timestamp: 26,
            second_latency: 4,
        }))
    );
    assert_eq!(model.entry(&mut cache, 30), Ok(LatencyStep::Refill));
    assert_eq!(model.refill(&mut cache).expect("rows"), true);
    assert_eq!(
        model.entry_after_refill(&mut cache, 30),
        Ok(LatencyStep::Latency(1))
    );
}

#[test]
fn bad_latency_rows_are_reported() {
    let (mut empty, mut cache) = latency_model(vec![]);
    assert_eq!(empty.entry(&mut cache, 1), Err(LatencyFault::NoRows));
    let (mut early, mut cache) = latency_model(vec![vec![row(10, 0, 20)]]);
    assert_eq!(
        early.entry(&mut cache, 1),
        Err(LatencyFault::ExchangeTimestampNotPositive)
    );
    let (mut negative, mut cache) = latency_model(vec![vec![row(10, 5, 20)]]);
    assert_eq!(
        negative.entry(&mut cache, 1),
        Err(LatencyFault::Negative)
    );
    let (mut wide, mut cache) = latency_model(vec![vec![row(i64::MIN, 5, 20)]]);
    assert_eq!(wide.entry(&mut cache, 6), Err(LatencyFault::Overflow));
}
