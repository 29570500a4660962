use hftbacktest::data::archive::load_order_latency;
use hftbacktest::data::archive::read_market_data;
use hftbacktest::data::archive::read_stored_events;
use hftbacktest::data::archive::write_market_data;
use hftbacktest::data::fixed::DATA_SCALE;
use hftbacktest::data::format::check_metadata;
use hftbacktest::data::format::count_read;
use hftbacktest::data::format::decode_events;
use hftbacktest::data::format::encode_metadata;
use hftbacktest::data::format::metadata_dtype;
use hftbacktest::data::format::metadata_rows;
use hftbacktest::data::format::order_latency_dtype;
use hftbacktest::data::format::order_latency_rows;
use hftbacktest::data::format::stored_event_dtype;
use hftbacktest::data::format::ArrayHeader;
use hftbacktest::data::format::EntryFault;
use hftbacktest::data::format::FormatError;
use hftbacktest::data::format::MarketDataMetadata;
use hftbacktest::data::format::StoredEvent;
use hftbacktest::data::npy::metadata_descr;
use hftbacktest::data::npy::order_latency_descr;
use hftbacktest::data::npy::read_array;
use hftbacktest::data::npy::read_header;
use hftbacktest::data::npy::read_latency_array;
use hftbacktest::data::npy::read_metadata_array;
use hftbacktest::data::npy::stored_event_descr;
use hftbacktest::data::npy::write_array;
use hftbacktest::data::npy::write_metadata;
use hftbacktest::decimal::Decimal;
use hftbacktest::models::latency::OrderLatencyRow;
use hftbacktest::types::Event;
use npyz::WriterBuilder;
use std::io::Cursor;
use std::io::Write;
use zip::write::SimpleFileOptions;
use zip::ZipArchive;
use zip::ZipWriter;

fn archive(entries: &[(&str, &[u8])]) -> Vec<u8> {
    let mut writer = ZipWriter::new(Cursor::new(Vec::new()));
    for (name, bytes) in entries {
        writer
            .start_file(*name, SimpleFileOptions::default())
            .expect("entry should open");
        writer.write_all(bytes).expect("entry should be written");
    }
    writer.finish().expect("archive should finish").into_inner()
}

fn written(events: &Vec<StoredEvent>) -> Vec<u8> {
    write_market_data(events).expect("valid events should serialize")
}

fn read_events(bytes: &[u8]) -> Result<Vec<StoredEvent>, FormatError> {
    read_array(bytes, bytes.len() as u64, stored_event_descr())
}

fn stored_event() -> StoredEvent {
    StoredEvent {
        ev: 1,
        exch_ts: 2,
        local_ts: 3,
        px: i64::MAX,
        qty: 1,
    }
}

#[test]
fn exact_event_roundtrip() {
    let loaded =
        read_market_data(&written(&vec![stored_event()])).expect("valid archive should load");
    assert_eq!(
        loaded,
        [Event {
            ev: 1,
            exch_ts: 2,
            local_ts: 3,
            px: Decimal::new(i64::MAX, DATA_SCALE),
            qty: Decimal::new(1, DATA_SCALE),
        }]
    );
}

#[test]
fn format_exact_event_roundtrip() {
    let loaded =
        read_stored_events(&written(&vec![stored_event()])).expect("valid archive should load");
    assert_eq!(loaded, [stored_event()]);
    let loaded = read_events(&write_array(&vec![stored_event()])).expect("valid array should load");
    assert_eq!(loaded, [stored_event()]);
}

#[test]
fn roundtrips_data_larger_than_write_buffer() {
    let events: Vec<StoredEvent> = (0..30_000)
        .map(|index| StoredEvent {
            ev: 1,
            exch_ts: index,
            local_ts: index + 1,
            px: index + 2,
            qty: index + 3,
        })
        .collect();
    let loaded = read_stored_events(&written(&events)).expect("archive should load");
    assert_eq!(loaded, events);
    let decoded = decode_events(&loaded);
    assert_eq!(decoded[7].px, Decimal::new(9, DATA_SCALE));
}

#[test]
fn data_entry_reserves_zip64_sizes() {
    let bytes = written(&vec![stored_event()]);
    let mut archive = ZipArchive::new(Cursor::new(&bytes)).expect("archive should load");
    let header_start = archive
        .by_name("data.npy")
        .expect("data entry should be there")
        .header_start() as usize;
    assert_eq!(bytes[header_start + 18..header_start + 26], [u8::MAX; 8]);
    let header_start = archive
        .by_name("metadata.npy")
        .expect("metadata entry should be there")
        .header_start() as usize;
    assert_ne!(bytes[header_start + 18..header_start + 26], [u8::MAX; 8]);
}

#[test]
fn empty_array_roundtrip() {
    assert!(read_market_data(&written(&Vec::new()))
        .expect("empty array should load")
        .is_empty());
}

#[test]
fn format_empty_array_roundtrip() {
    empty_array_roundtrip();
}

#[test]
fn rejects_missing_or_invalid_metadata() {
    for metadata in [
        None,
        Some(MarketDataMetadata {
            price_scale: 9,
            size_scale: 8,
        }),
    ] {
        let data = write_array(&Vec::new());
        let metadata = metadata.map(|metadata| write_metadata(&metadata));
        let mut entries: Vec<(&str, &[u8])> = Vec::new();
        if let Some(metadata) = &metadata {
            entries.push(("metadata.npy", metadata));
        }
        entries.push(("data.npy", &data));
        let error = read_market_data(&archive(&entries)).expect_err("metadata should be judged");
        assert_eq!(
            error.message(),
            if metadata.is_none() {
                "specified file not found in archive"
            } else {
                "unsupported market data scale metadata"
            }
        );
    }
}

#[test]
fn format_rejects_missing_or_invalid_metadata() {
    rejects_missing_or_invalid_metadata();
    let current = MarketDataMetadata::current();
    assert!(check_metadata(&vec![current]).is_ok());
    assert!(check_metadata(&vec![]).is_err());
    assert!(check_metadata(&vec![current, current]).is_err());
}

#[test]
fn rejects_trailing_payload_and_dtype_mismatch() {
    let mut bytes = write_array(&vec![stored_event()]);
    bytes.push(0);
    let error = read_events(&bytes).expect_err("trailing bytes should be refused");
    assert_eq!(
        error.message(),
        format!(
            "numpy payload length mismatch: consumed {}, archive entry has {}",
            bytes.len() - 1,
            bytes.len()
        )
    );

    let wrong_dtype = npyz::DType::parse(
        "[('ev', '<u8'), ('exch_ts', '<i8'), ('local_ts', '<i8'), ('px', '<f8'), ('qty', '<i8')]",
    )
    .expect("test dtype should be valid")
    .descr();
    let error = read_array(&bytes, bytes.len() as u64 - 1, &wrong_dtype)
        .expect_err("other types should be refused");
    assert_eq!(
        error.message(),
        format!(
            "numpy dtype mismatch: expected {}, got {}",
            wrong_dtype,
            stored_event_descr()
        )
    );
}

#[test]
fn rejects_truncated_payload_and_dtype_mismatch() {
    let events = vec![StoredEvent {
        ev: 1,
        exch_ts: 2,
        local_ts: 3,
        px: 4,
        qty: 5,
    }];
    let mut bytes = write_array(&events);
    let size = bytes.len();
    let read = |bytes: &[u8], size: usize| read_array(bytes, size as u64, stored_event_descr());
    assert!(matches!(
        read(&bytes[..size - 1], size),
        Err(FormatError::Truncated)
    ));
    assert!(read(&bytes[..size - 1], size - 1).is_err());
    let dtype = bytes
        .windows(13)
        .position(|window| window == b"('px', '<i8')")
        .expect("price dtype should be in header");
    bytes[dtype + 9] = b'f';
    assert!(matches!(
        read(&bytes, size),
        Err(FormatError::DtypeMismatch { .. })
    ));
}

#[test]
fn written_headers_are_those_of_the_format() {
    let bytes = write_array(&vec![stored_event(); 12]);
    let text = "{'descr': [('ev', '<u8'), ('exch_ts', '<i8'), ('local_ts', '<i8'), \
                ('px', '<i8'), ('qty', '<i8'), ], 'fortran_order': False, 'shape': (12, ), }";
    let mut expected = b"\x93NUMPY\x01\x00".to_vec();
    expected.extend(182u16.to_le_bytes());
    expected.extend(text.as_bytes());
    expected.resize(191, b' ');
    expected.push(b'\n');
    assert_eq!(bytes[..192], expected);
    assert_eq!(bytes.len(), 192 + 12 * 40);
    let header = read_header(&bytes).expect("header should be readable");
    assert_eq!(header.size, 192);
    assert_eq!(header.shape, [12]);
    assert_eq!(header.dtype, stored_event_descr());
    for (dtype, descr) in [
        (stored_event_dtype(), stored_event_descr()),
        (metadata_dtype(), metadata_descr()),
        (order_latency_dtype(), order_latency_descr()),
    ] {
        let parsed = npyz::DType::parse(dtype).expect("dtype should be valid");
        assert_eq!(parsed.descr(), descr);
    }
}

#[test]
fn intricate_and_damaged_headers_are_refused() {
    let bytes = write_array(&vec![stored_event()]);
    let mut nested = bytes.clone();
    for byte in &mut nested[10..150] {
        *byte = b'[';
    }
    assert!(matches!(
        read_events(&nested),
        Err(FormatError::IntricateHeader)
    ));
    let mut long = bytes.clone();
    for byte in &mut long[10..30] {
        *byte = b'7';
    }
    assert!(matches!(
        read_events(&long),
        Err(FormatError::IntricateHeader)
    ));
    let mut broken = bytes.clone();
    broken[10] = b')';
    assert!(matches!(read_events(&broken), Err(FormatError::BadHeader)));
    let mut other = bytes.clone();
    other[0] = 0;
    assert!(matches!(read_events(&other), Err(FormatError::BadHeader)));
    assert!(matches!(
        read_events(&bytes[..100]),
        Err(FormatError::Truncated)
    ));
    assert!(matches!(read_events(b""), Err(FormatError::BadHeader)));
}

/// An array with one row of an event behind a header with this text.
fn with_text(text: &str) -> Vec<u8> {
    let mut bytes = b"\x93NUMPY\x01\x00".to_vec();
    bytes.extend((text.len() as u16).to_le_bytes());
    bytes.extend(text.as_bytes());
    bytes.extend(&write_array(&vec![stored_event()])[192..]);
    bytes
}

#[test]
fn headers_of_other_writers_are_read() {
    let plain = format!(
        "{{'descr': {}, 'fortran_order': False, 'shape': (1,)}}",
        stored_event_dtype()
    );
    for text in [
        plain.clone(),
        plain.replace('\'', "\""),
        plain.replace("(1,)", "(0x1,)"),
        plain.replace("(1,)", "[0b1]"),
        plain.replace("(1,)", "(1_0-9,)"),
        format!("{plain}{}\n", " ".repeat(1000)),
    ] {
        let loaded = read_events(&with_text(&text)).expect("header should be readable");
        assert_eq!(loaded, [stored_event()]);
    }
    let wide = format!(
        "{{'descr': [{}], 'fortran_order': False, 'shape': (1,)}}",
        "('column', '<i8'), ".repeat(40)
    );
    assert!(matches!(
        read_events(&with_text(&wide)),
        Err(FormatError::DtypeMismatch { .. })
    ));
    for text in [
        plain.replace("(1,)", "(0x123456789abcdef0,)"),
        plain.replace("(1,)", "(12345678901234567890,)"),
        plain.replace("'ev'", "'e\\v'"),
        plain.replace("'ev'", "''"),
    ] {
        assert!(matches!(
            read_events(&with_text(&text)),
            Err(FormatError::IntricateHeader)
        ));
    }
}

#[test]
fn metadata_is_judged_before_the_events_are_looked_at() {
    let metadata = write_metadata(&MarketDataMetadata {
        price_scale: 1,
        size_scale: 1,
    });
    assert!(matches!(
        read_market_data(&archive(&[("metadata.npy", &metadata)])),
        Err(FormatError::UnsupportedScales)
    ));
    let metadata = write_metadata(&MarketDataMetadata::current());
    assert!(matches!(
        read_market_data(&archive(&[("metadata.npy", &metadata)])),
        Err(FormatError::Entry(EntryFault::Missing))
    ));
    assert!(matches!(
        read_market_data(b"no archive"),
        Err(FormatError::Entry(EntryFault::Damaged))
    ));
    let rows = read_metadata_array(&metadata, metadata.len() as u64, metadata_descr())
        .expect("metadata should load");
    assert_eq!(rows, [MarketDataMetadata::current()]);
}

#[test]
fn other_shapes_and_uncountable_sizes_are_refused() {
    let array = |shape: Vec<u64>, size: u64| ArrayHeader {
        size,
        shape,
        dtype: metadata_descr().to_owned(),
    };
    let payload = encode_metadata(&MarketDataMetadata::current());
    let error = metadata_rows(&array(vec![1, 1], 128), metadata_descr(), &payload, 136)
        .expect_err("two dimensions should be refused");
    assert_eq!(error.message(), "expected a one-dimensional numpy array");
    let error = metadata_rows(&array(vec![1], u64::MAX), metadata_descr(), &payload, 136)
        .expect_err("size should not fit");
    assert_eq!(error.message(), "array size overflow");
    assert_eq!(count_read(3, 4).ok(), Some(7));
    assert!(count_read(u64::MAX, 1).is_err());
}

#[test]
fn order_latencies_are_read_from_their_words() {
    let mut payload = Vec::new();
    for word in [5i64, -6, i64::MAX] {
        payload.extend(word.to_le_bytes());
    }
    let header = ArrayHeader {
        size: 128,
        shape: vec![1],
        dtype: order_latency_descr().to_owned(),
    };
    let expected = [OrderLatencyRow {
        req_ts: 5,
        exch_ts: -6,
        resp_ts: i64::MAX,
    }];
    let rows = order_latency_rows(&header, order_latency_descr(), &payload, 152)
        .expect("rows should load");
    assert_eq!(rows, expected);

    let dtype = npyz::DType::parse(order_latency_descr()).expect("dtype should be valid");
    let mut array = npyz::WriteOptions::new_header_only()
        .dtype(dtype)
        .shape(&[1])
        .writer(Vec::new())
        .write_header_only()
        .expect("header should be written");
    array.extend(payload);
    let rows = read_latency_array(&array, array.len() as u64, order_latency_descr())
        .expect("rows should load");
    assert_eq!(rows, expected);
    let rows = load_order_latency(&archive(&[("data.npy", &array)])).expect("rows should load");
    assert_eq!(rows, expected);
}
