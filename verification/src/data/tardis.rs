//! Reads the CSV files of a market-data vendor into stored events.
use vstd::prelude::*;
use vstd::string::*;
use vstd::utf8::encode_utf8;
use vstd::utf8::encode_utf8_decode_utf8;

use crate::data::digits::all_digits;
use crate::data::digits::is_digit;
use crate::data::digits::lemma_number_bounds;
use crate::data::digits::number_of;
use crate::data::fixed::append_digit;
use crate::data::fixed::is_negative;
use crate::data::fixed::without_sign;
use crate::data::fixed::ParseFixedError;
use crate::data::format::StoredEvent;
use crate::data::plain::parse_fixed;
use crate::data::plain::plain_value;
use crate::text::append_number;
use crate::text::from_utf8_lossy;
use crate::text::lossy_text;
use crate::text::number_text;
use crate::text::quote;
use crate::text::quoted_text;
use crate::types::BUY_EVENT;
use crate::types::DEPTH_BBO_EVENT;
use crate::types::DEPTH_EVENT;
use crate::types::DEPTH_SNAPSHOT_EVENT;
use crate::types::kind_of;
use crate::types::SELL_EVENT;
use crate::types::TRADE_EVENT;

verus! {

/// Which feed a file holds.
#[derive(Clone, Copy, Debug, PartialEq, Eq, Structural)]
pub enum FeedKind {
    /// Trades.
    Trades,
    /// Depth updates.
    Depth,
    /// Best bids and offers.
    BookTicker,
}

/// The bytes of each field.
pub open spec fn fields_view(fields: Seq<Vec<u8>>) -> Seq<Seq<u8>> {
    Seq::new(fields.len(), |i: int| fields[i]@)
}

/// The bytes of each field of each record, or `None` for a record that could not be read.
pub open spec fn records_view(records: Seq<Option<Vec<Vec<u8>>>>) -> Seq<Option<Seq<Seq<u8>>>> {
    Seq::new(
        records.len(),
        |i: int|
            match records[i] {
                Some(fields) => Some(fields_view(fields@)),
                None => None,
            },
    )
}

/// The fields of the header row that the `csv` crate reads.
pub uninterp spec fn outside_csv_headers(input: Seq<u8>) -> Option<Seq<Seq<u8>>>;

/// The records behind the header row that the `csv` crate reads, each with its fields or an error.
pub uninterp spec fn outside_csv_records(input: Seq<u8>) -> Seq<Option<Seq<Seq<u8>>>>;

/// The bytes that the `flate2` crate unpacks from gzip data, where they are in order.
pub uninterp spec fn outside_gunzip(input: Seq<u8>) -> Option<Seq<u8>>;

/// The fields of the header row that the `csv` crate reads from what the `flate2` crate unpacks of
/// gzip data, up to where the data is damaged.
pub uninterp spec fn outside_gzip_headers(input: Seq<u8>) -> Option<Seq<Seq<u8>>>;

/// The records behind the header row that the `csv` crate reads from what the `flate2` crate unpacks
/// of gzip data, up to where the data is damaged, and an error there.
pub uninterp spec fn outside_gzip_records(input: Seq<u8>) -> Seq<Option<Seq<Seq<u8>>>>;

/// Calls `csv::Reader::byte_headers` on bytes in memory.
#[verifier::external_body]
fn csv_headers(input: &[u8]) -> (r: Option<Vec<Vec<u8>>>)
    ensures
        r matches Some(fields) ==> outside_csv_headers(input@) == Some(fields_view(fields@)),
        r is None ==> outside_csv_headers(input@) is None,
{
    let mut reader = csv::ReaderBuilder::new().from_reader(input);
    let headers = reader.byte_headers();
    headers.map(|record| record.iter().map(|field| field.to_vec()).collect()).ok()
}

/// Calls `csv::Reader::byte_records` on bytes in memory. The reader does not accept a record whose
/// number of fields differs from that of the header row: such a record is an error.
#[verifier::external_body]
fn csv_records(input: &[u8]) -> (r: Vec<Option<Vec<Vec<u8>>>>)
    ensures
        records_view(r@) == outside_csv_records(input@),
        forall|i: int|
            0 <= i < r@.len() ==> ((#[trigger] r@[i]) is Some && outside_csv_headers(input@) is Some
                ==> r@[i]->0@.len() == outside_csv_headers(input@)->0.len()),
{
    let mut reader = csv::ReaderBuilder::new().from_reader(input);
    let records = reader.byte_records();
    let fields = |record: csv::ByteRecord| record.iter().map(|field| field.to_vec()).collect();
    records.map(|record| record.map(fields).ok()).collect()
}

/// Calls `flate2::read::MultiGzDecoder` and reads it to its end.
#[verifier::external_body]
fn gunzip(input: &[u8]) -> (r: Option<Vec<u8>>)
    ensures
        r matches Some(bytes) ==> outside_gunzip(input@) == Some(bytes@),
        r is None ==> outside_gunzip(input@) is None,
{
    let mut bytes = Vec::new();
    let mut decoder = flate2::read::MultiGzDecoder::new(input);
    std::io::Read::read_to_end(&mut decoder, &mut bytes).map(|_| bytes).ok()
}

/// Calls `csv::Reader::byte_headers` on a `flate2::read::MultiGzDecoder` of bytes in memory.
#[verifier::external_body]
fn gzip_headers(input: &[u8]) -> (r: Option<Vec<Vec<u8>>>)
    ensures
        r matches Some(fields) ==> outside_gzip_headers(input@) == Some(fields_view(fields@)),
        r is None ==> outside_gzip_headers(input@) is None,
{
    let decoder = flate2::read::MultiGzDecoder::new(input);
    let mut reader = csv::ReaderBuilder::new().from_reader(decoder);
    let headers = reader.byte_headers();
    headers.map(|record| record.iter().map(|field| field.to_vec()).collect()).ok()
}

/// Calls `csv::Reader::byte_records` on a `flate2::read::MultiGzDecoder` of bytes in memory. Where
/// the decoder reports an error there is an error for a record, and none behind it. The reader does
/// not accept a record whose number of fields differs from that of the header row: such a record is
/// an error.
#[verifier::external_body]
fn gzip_records(input: &[u8]) -> (r: Vec<Option<Vec<Vec<u8>>>>)
    ensures
        records_view(r@) == outside_gzip_records(input@),
        forall|i: int|
            0 <= i < r@.len() ==> ((#[trigger] r@[i]) is Some && outside_gzip_headers(
                input@,
            ) is Some ==> r@[i]->0@.len() == outside_gzip_headers(input@)->0.len()),
{
    let decoder = flate2::read::MultiGzDecoder::new(input);
    let mut reader = csv::ReaderBuilder::new().from_reader(decoder);
    let records = reader.byte_records();
    let fields = |record: csv::ByteRecord| record.iter().map(|field| field.to_vec()).collect();
    records.map(|record| record.map(fields).ok()).collect()
}

/// What is wrong with a field.
#[derive(Clone, Copy, Debug, PartialEq, Eq, Structural)]
pub enum FieldReason {
    /// A timestamp is not an integer.
    NotAnInteger,
    /// A timestamp is negative.
    NegativeTimestamp,
    /// A timestamp does not fit in nanoseconds.
    TimestampOverflow,
    /// A price or quantity cannot be stored.
    Number(ParseFixedError),
    /// A price is not positive.
    PriceNotPositive,
    /// A quantity is negative.
    NegativeQuantity,
    /// A side is neither of the two.
    InvalidSide,
    /// A snapshot flag is neither true nor false.
    InvalidSnapshotFlag,
}

impl FieldReason {
    /// The reason in words.
    pub open spec fn words(self) -> Seq<char> {
        match self {
            FieldReason::NotAnInteger => "expected an integer"@,
            FieldReason::NegativeTimestamp => "timestamp must be nonnegative"@,
            FieldReason::TimestampOverflow => "nanosecond timestamp overflow"@,
            FieldReason::Number(error) => match error {
                ParseFixedError::Syntax => "expected a plain decimal number"@,
                ParseFixedError::Precision => "value cannot be represented exactly at scale 8"@,
                ParseFixedError::Overflow => "scaled value exceeds the i64 range"@,
            },
            FieldReason::PriceNotPositive => "price must be positive"@,
            FieldReason::NegativeQuantity => "quantity must be nonnegative"@,
            FieldReason::InvalidSide => "invalid side"@,
            FieldReason::InvalidSnapshotFlag => "invalid snapshot flag"@,
        }
    }

    /// The reason in words.
    pub fn message(&self) -> (r: &'static str)
        ensures
            r@ == self.words(),
    {
        match self {
            FieldReason::NotAnInteger => "expected an integer",
            FieldReason::NegativeTimestamp => "timestamp must be nonnegative",
            FieldReason::TimestampOverflow => "nanosecond timestamp overflow",
            FieldReason::Number(error) => match error {
                ParseFixedError::Syntax => "expected a plain decimal number",
                _ => error.message(),
            },
            FieldReason::PriceNotPositive => "price must be positive",
            FieldReason::NegativeQuantity => "quantity must be nonnegative",
            FieldReason::InvalidSide => "invalid side",
            FieldReason::InvalidSnapshotFlag => "invalid snapshot flag",
        }
    }
}

/// Where and why reading a file failed. Records are counted from one, the header row included.
#[derive(Clone, Copy, Debug, PartialEq, Eq, Structural)]
pub enum FeedFault {
    /// The header row could not be read.
    HeaderUnreadable,
    /// The header row does not name the fields of the feed.
    HeaderUnexpected,
    /// A record could not be read.
    Record {
        /// The record.
        record: u128,
    },
    /// A field is not in order.
    Field {
        /// The record.
        record: u128,
        /// The field.
        column: usize,
        /// What is wrong with it.
        reason: FieldReason,
    },
}

/// Why a file could not be read.
#[derive(Debug)]
pub struct TardisError {
    /// The file.
    pub path: String,
    /// What is wrong.
    pub fault: FeedFault,
    /// The name of the field, where one is not in order.
    pub field: Vec<u8>,
    /// What the field holds.
    pub value: Vec<u8>,
}

/// The place of a field, in words.
pub open spec fn location_text(
    path: Seq<char>,
    record: u128,
    field: Seq<u8>,
    value: Seq<u8>,
) -> Seq<char> {
    path + " record "@ + number_text(record as nat) + " field "@ + lossy_text(field) + " value "@
        + quoted_text(lossy_text(value))
}

impl TardisError {
    /// The error in words.
    pub open spec fn words(&self) -> Seq<char> {
        match self.fault {
            FeedFault::HeaderUnreadable => "failed to read header of "@ + self.path@,
            FeedFault::HeaderUnexpected => "unexpected CSV header in "@ + self.path@,
            FeedFault::Record { record } => "failed to read "@ + self.path@ + " near record "@
                + number_text(record as nat),
            FeedFault::Field { record, column, reason } => location_text(
                self.path@,
                record,
                self.field@,
                self.value@,
            ) + ": "@ + reason.words(),
        }
    }

    /// The error in words.
    pub fn message(&self) -> (r: String)
        ensures
            r@ == self.words(),
    {
        let mut text: String = String::new();
        match self.fault {
            FeedFault::HeaderUnreadable => {
                text.append("failed to read header of ");
                text.append(self.path.as_str());
            },
            FeedFault::HeaderUnexpected => {
                text.append("unexpected CSV header in ");
                text.append(self.path.as_str());
            },
            FeedFault::Record { record } => {
                text.append("failed to read ");
                text.append(self.path.as_str());
                text.append(" near record ");
                append_number(&mut text, record);
            },
            FeedFault::Field { record, column, reason } => {
                text.append(self.path.as_str());
                text.append(" record ");
                append_number(&mut text, record);
                text.append(" field ");
                let field: String = from_utf8_lossy(self.field.as_slice());
                text.append(field.as_str());
                text.append(" value ");
                let value: String = from_utf8_lossy(self.value.as_slice());
                let quoted: String = quote(value.as_str());
                text.append(quoted.as_str());
                text.append(": ");
                text.append(reason.message());
            },
        }
        assert(text@ =~= self.words());
        text
    }
}

/// The names of the fields of a feed.
pub open spec fn expected_headers(kind: FeedKind) -> Seq<Seq<char>> {
    match kind {
        FeedKind::Trades => seq![
            "exchange"@,
            "symbol"@,
            "timestamp"@,
            "local_timestamp"@,
            "id"@,
            "side"@,
            "price"@,
            "amount"@,
        ],
        FeedKind::Depth => seq![
            "exchange"@,
            "symbol"@,
            "timestamp"@,
            "local_timestamp"@,
            "is_snapshot"@,
            "side"@,
            "price"@,
            "amount"@,
        ],
        FeedKind::BookTicker => seq![
            "exchange"@,
            "symbol"@,
            "timestamp"@,
            "local_timestamp"@,
            "ask_amount"@,
            "ask_price"@,
            "bid_price"@,
            "bid_amount"@,
        ],
    }
}

/// Whether bytes spell a text.
pub open spec fn spells(bytes: Seq<u8>, text: Seq<char>) -> bool {
    bytes == encode_utf8(text)
}

/// Whether a header row names the fields of a feed.
pub open spec fn headers_ok(kind: FeedKind, headers: Seq<Seq<u8>>) -> bool {
    headers.len() == 8 && forall|i: int|
        0 <= i < 8 ==> spells(#[trigger] headers[i], expected_headers(kind)[i])
}

/// The whole number that a field spells: digits behind an optional sign, in the `i64` range.
pub open spec fn integer_of(field: Seq<u8>) -> Option<i64> {
    let digits = without_sign(field);
    let n = if is_negative(field) {
        -number_of(digits)
    } else {
        number_of(digits)
    };
    if digits.len() > 0 && all_digits(digits) && i64::MIN <= n <= i64::MAX {
        Some(n as i64)
    } else {
        None
    }
}

/// The nanoseconds of a timestamp that a field gives in microseconds.
pub open spec fn timestamp_of(field: Seq<u8>) -> Result<i64, FieldReason> {
    match integer_of(field) {
        None => Err(FieldReason::NotAnInteger),
        Some(n) => if n < 0 {
            Err(FieldReason::NegativeTimestamp)
        } else if n * 1000 > i64::MAX {
            Err(FieldReason::TimestampOverflow)
        } else {
            Ok((n * 1000) as i64)
        },
    }
}

/// The price that a field gives.
pub open spec fn price_of(field: Seq<u8>) -> Result<i64, FieldReason> {
    match plain_value(field) {
        Err(error) => Err(FieldReason::Number(error)),
        Ok(n) => if n <= 0 {
            Err(FieldReason::PriceNotPositive)
        } else {
            Ok(n)
        },
    }
}

/// The quantity that a field gives.
pub open spec fn quantity_of(field: Seq<u8>) -> Result<i64, FieldReason> {
    match plain_value(field) {
        Err(error) => Err(FieldReason::Number(error)),
        Ok(n) => if n < 0 {
            Err(FieldReason::NegativeQuantity)
        } else {
            Ok(n)
        },
    }
}

/// The flag of the side that a field names.
pub open spec fn side_of(field: Seq<u8>) -> Result<u64, FieldReason> {
    if spells(field, "buy"@) || spells(field, "bid"@) {
        Ok(BUY_EVENT)
    } else if spells(field, "sell"@) || spells(field, "ask"@) {
        Ok(SELL_EVENT)
    } else {
        Err(FieldReason::InvalidSide)
    }
}

/// The kind of event that a record of trades or depth holds.
pub open spec fn event_of(kind: FeedKind, field: Seq<u8>) -> Result<u64, FieldReason> {
    if kind == FeedKind::Trades {
        Ok(TRADE_EVENT)
    } else if spells(field, "true"@) {
        Ok(DEPTH_SNAPSHOT_EVENT)
    } else if spells(field, "false"@) {
        Ok(DEPTH_EVENT)
    } else {
        Err(FieldReason::InvalidSnapshotFlag)
    }
}

/// The price and the quantity in two columns; the first fault where they hold none.
pub open spec fn level_of(fields: Seq<Seq<u8>>, price_column: int, quantity_column: int) -> Result<
    (i64, i64),
    (usize, FieldReason),
> {
    match price_of(fields[price_column]) {
        Err(reason) => Err((price_column as usize, reason)),
        Ok(px) => match quantity_of(fields[quantity_column]) {
            Err(reason) => Err((quantity_column as usize, reason)),
            Ok(qty) => Ok((px, qty)),
        },
    }
}

/// The events of a record, behind its timestamps. A best bid and offer is the ask, then the bid.
pub open spec fn events_of(
    kind: FeedKind,
    fields: Seq<Seq<u8>>,
    exch_ts: i64,
    local_ts: i64,
) -> Result<Seq<StoredEvent>, (usize, FieldReason)> {
    if kind == FeedKind::BookTicker {
        match level_of(fields, 5, 4) {
            Err(fault) => Err(fault),
            Ok(ask) => match level_of(fields, 6, 7) {
                Err(fault) => Err(fault),
                Ok(bid) => Ok(
                    seq![
                        StoredEvent {
                            ev: DEPTH_BBO_EVENT | SELL_EVENT,
                            exch_ts,
                            local_ts,
                            px: ask.0,
                            qty: ask.1,
                        },
                        StoredEvent {
                            ev: DEPTH_BBO_EVENT | BUY_EVENT,
                            exch_ts,
                            local_ts,
                            px: bid.0,
                            qty: bid.1,
                        },
                    ],
                ),
            },
        }
    } else {
        match side_of(fields[5]) {
            Err(reason) => Err((5usize, reason)),
            Ok(side) => match event_of(kind, fields[4]) {
                Err(reason) => Err((4usize, reason)),
                Ok(event) => match level_of(fields, 6, 7) {
                    Err(fault) => Err(fault),
                    Ok(level) => Ok(
                        seq![
                            StoredEvent {
                                ev: event | side,
                                exch_ts,
                                local_ts,
                                px: level.0,
                                qty: level.1,
                            },
                        ],
                    ),
                },
            },
        }
    }
}

/// The events of a record, or the first field that is not in order and what is wrong with it.
pub open spec fn row_events(kind: FeedKind, fields: Seq<Seq<u8>>) -> Result<
    Seq<StoredEvent>,
    (usize, FieldReason),
> {
    match timestamp_of(fields[2]) {
        Err(reason) => Err((2usize, reason)),
        Ok(exch_ts) => match timestamp_of(fields[3]) {
            Err(reason) => Err((3usize, reason)),
            Ok(local_ts) => events_of(kind, fields, exch_ts, local_ts),
        },
    }
}

/// Whether bytes spell a text.
fn is_spelled(bytes: &Vec<u8>, text: &str) -> (r: bool)
    ensures
        r == spells(bytes@, text@),
{
    let expected: &[u8] = text.as_bytes();
    if bytes.len() != expected.len() {
        return false;
    }
    let mut i: usize = 0;
    while i < bytes.len()
        invariant
            i <= bytes@.len() == expected@.len(),
            expected@ == encode_utf8(text@),
            forall|k: int| 0 <= k < i ==> bytes@[k] == expected@[k],
        decreases bytes@.len() - i,
    {
        if bytes[i] != expected[i] {
            return false;
        }
        i = i + 1;
    }
    assert(bytes@ =~= expected@);
    true
}

/// Whether a header row names the fields of a feed.
pub fn check_headers(kind: FeedKind, headers: &Vec<Vec<u8>>) -> (r: bool)
    ensures
        r == headers_ok(kind, fields_view(headers@)),
{
    if headers.len() != 8 {
        return false;
    }
    let names: [&str; 8] = match kind {
        FeedKind::Trades => [
            "exchange",
            "symbol",
            "timestamp",
            "local_timestamp",
            "id",
            "side",
            "price",
            "amount",
        ],
        FeedKind::Depth => [
            "exchange",
            "symbol",
            "timestamp",
            "local_timestamp",
            "is_snapshot",
            "side",
            "price",
            "amount",
        ],
        FeedKind::BookTicker => [
            "exchange",
            "symbol",
            "timestamp",
            "local_timestamp",
            "ask_amount",
            "ask_price",
            "bid_price",
            "bid_amount",
        ],
    };
    let ghost expected = expected_headers(kind);
    assert forall|i: int| 0 <= i < 8 implies (#[trigger] names@[i])@ == expected[i] by {}
    let ghost view = fields_view(headers@);
    let mut i: usize = 0;
    while i < 8
        invariant
            i <= 8,
            headers@.len() == 8,
            names@.len() == 8,
            view == fields_view(headers@),
            expected == expected_headers(kind),
            forall|k: int| 0 <= k < 8 ==> (#[trigger] names@[k])@ == expected[k],
            forall|k: int| 0 <= k < i ==> spells(#[trigger] view[k], expected[k]),
        decreases 8 - i,
    {
        assert(view[i as int] == headers@[i as int]@);
        if !is_spelled(&headers[i], names[i]) {
            return false;
        }
        i = i + 1;
    }
    true
}

/// Reads a whole number.
fn parse_integer(field: &Vec<u8>) -> (r: Option<i64>)
    ensures
        r == integer_of(field@),
{
    let negative: bool = field.len() > 0 && field[0] == 45;
    let signed: bool = field.len() > 0 && (field[0] == 43 || field[0] == 45);
    let start: usize = if signed {
        1
    } else {
        0
    };
    let ghost digits = without_sign(field@);
    assert(digits =~= field@.skip(start as int));
    if start == field.len() {
        return None;
    }
    let mut value: i64 = 0;
    let mut too_small: bool = false;
    let mut i: usize = start;
    while i < field.len()
        invariant
            start <= i <= field@.len(),
            digits == without_sign(field@),
            digits =~= field@.skip(start as int),
            all_digits(digits.take(i - start)),
            value <= 0,
            !too_small ==> value == -number_of(digits.take(i - start)),
            too_small ==> -number_of(digits.take(i - start)) < i64::MIN,
        decreases field@.len() - i,
    {
        let byte: u8 = field[i];
        let ghost before = digits.take(i - start);
        let ghost after = digits.take(i - start + 1);
        assert(digits[i - start] == byte);
        if byte < 48 || byte > 57 {
            return None;
        }
        assert(after =~= before.push(byte));
        assert(after.drop_last() =~= before);
        assert(all_digits(after)) by {
            assert forall|k: int| 0 <= k < after.len() implies is_digit(#[trigger] after[k]) by {
                if k < before.len() {
                    assert(before[k] == after[k]);
                }
            }
        }
        proof {
            lemma_number_bounds(before);
            lemma_number_bounds(after);
        }
        if !too_small {
            match append_digit(value, byte - 48) {
                Some(next) => {
                    value = next;
                },
                None => {
                    too_small = true;
                },
            }
        }
        i = i + 1;
    }
    assert(digits.take(i - start) =~= digits);
    if too_small {
        None
    } else if negative {
        Some(value)
    } else if value == i64::MIN {
        None
    } else {
        Some(-value)
    }
}

/// Reads a timestamp.
fn parse_timestamp(field: &Vec<u8>) -> (r: Result<i64, FieldReason>)
    ensures
        r == timestamp_of(field@),
{
    let value: i64 = match parse_integer(field) {
        Some(value) => value,
        None => {
            return Err(FieldReason::NotAnInteger);
        },
    };
    if value < 0 {
        return Err(FieldReason::NegativeTimestamp);
    }
    match value.checked_mul(1000) {
        Some(nanoseconds) => Ok(nanoseconds),
        None => Err(FieldReason::TimestampOverflow),
    }
}

/// Reads a price.
fn parse_price(field: &Vec<u8>) -> (r: Result<i64, FieldReason>)
    ensures
        r == price_of(field@),
{
    match parse_fixed(field.as_slice()) {
        Err(error) => Err(FieldReason::Number(error)),
        Ok(value) => if value <= 0 {
            Err(FieldReason::PriceNotPositive)
        } else {
            Ok(value)
        },
    }
}

/// Reads a quantity.
fn parse_quantity(field: &Vec<u8>) -> (r: Result<i64, FieldReason>)
    ensures
        r == quantity_of(field@),
{
    match parse_fixed(field.as_slice()) {
        Err(error) => Err(FieldReason::Number(error)),
        Ok(value) => if value < 0 {
            Err(FieldReason::NegativeQuantity)
        } else {
            Ok(value)
        },
    }
}

/// Reads a side.
fn parse_side(field: &Vec<u8>) -> (r: Result<u64, FieldReason>)
    ensures
        r == side_of(field@),
{
    if is_spelled(field, "buy") || is_spelled(field, "bid") {
        Ok(BUY_EVENT)
    } else if is_spelled(field, "sell") || is_spelled(field, "ask") {
        Ok(SELL_EVENT)
    } else {
        Err(FieldReason::InvalidSide)
    }
}

/// Reads the kind of event of a record of trades or depth.
fn parse_event(kind: FeedKind, field: &Vec<u8>) -> (r: Result<u64, FieldReason>)
    ensures
        r == event_of(kind, field@),
{
    if kind == FeedKind::Trades {
        Ok(TRADE_EVENT)
    } else if is_spelled(field, "true") {
        Ok(DEPTH_SNAPSHOT_EVENT)
    } else if is_spelled(field, "false") {
        Ok(DEPTH_EVENT)
    } else {
        Err(FieldReason::InvalidSnapshotFlag)
    }
}

/// Reads a price and a quantity.
fn parse_level(fields: &Vec<Vec<u8>>, price_column: usize, quantity_column: usize) -> (r: Result<
    (i64, i64),
    (usize, FieldReason),
>)
    requires
        price_column < fields@.len(),
        quantity_column < fields@.len(),
    ensures
        r == level_of(fields_view(fields@), price_column as int, quantity_column as int),
{
    match parse_price(&fields[price_column]) {
        Err(reason) => Err((price_column, reason)),
        Ok(px) => match parse_quantity(&fields[quantity_column]) {
            Err(reason) => Err((quantity_column, reason)),
            Ok(qty) => Ok((px, qty)),
        },
    }
}

/// Whether the events of a record were read as they should.
pub open spec fn reads_as(
    r: Result<Vec<StoredEvent>, (usize, FieldReason)>,
    expected: Result<Seq<StoredEvent>, (usize, FieldReason)>,
) -> bool {
    match r {
        Ok(events) => expected == Ok::<Seq<StoredEvent>, (usize, FieldReason)>(events@),
        Err(fault) => expected == Err::<Seq<StoredEvent>, (usize, FieldReason)>(fault),
    }
}

/// Reads the events of a record, behind its timestamps.
fn parse_events(kind: FeedKind, fields: &Vec<Vec<u8>>, exch_ts: i64, local_ts: i64) -> (r: Result<
    Vec<StoredEvent>,
    (usize, FieldReason),
>)
    requires
        fields@.len() == 8,
    ensures
        reads_as(r, events_of(kind, fields_view(fields@), exch_ts, local_ts)),
{
    if kind == FeedKind::BookTicker {
        let ask: (i64, i64) = match parse_level(fields, 5, 4) {
            Ok(ask) => ask,
            Err(fault) => {
                return Err(fault);
            },
        };
        let bid: (i64, i64) = match parse_level(fields, 6, 7) {
            Ok(bid) => bid,
            Err(fault) => {
                return Err(fault);
            },
        };
        let mut events: Vec<StoredEvent> = Vec::new();
        events.push(
            StoredEvent {
                ev: DEPTH_BBO_EVENT | SELL_EVENT,
                exch_ts,
                local_ts,
                px: ask.0,
                qty: ask.1,
            },
        );
        events.push(
            StoredEvent {
                ev: DEPTH_BBO_EVENT | BUY_EVENT,
                exch_ts,
                local_ts,
                px: bid.0,
                qty: bid.1,
            },
        );
        assert(events@ =~= events_of(kind, fields_view(fields@), exch_ts, local_ts)->Ok_0);
        return Ok(events);
    }
    let side: u64 = match parse_side(&fields[5]) {
        Ok(side) => side,
        Err(reason) => {
            return Err((5, reason));
        },
    };
    let event: u64 = match parse_event(kind, &fields[4]) {
        Ok(event) => event,
        Err(reason) => {
            return Err((4, reason));
        },
    };
    let level: (i64, i64) = match parse_level(fields, 6, 7) {
        Ok(level) => level,
        Err(fault) => {
            return Err(fault);
        },
    };
    let mut events: Vec<StoredEvent> = Vec::new();
    events.push(StoredEvent { ev: event | side, exch_ts, local_ts, px: level.0, qty: level.1 });
    assert(events@ =~= events_of(kind, fields_view(fields@), exch_ts, local_ts)->Ok_0);
    Ok(events)
}

/// Reads the events of a record.
pub fn parse_row(kind: FeedKind, fields: &Vec<Vec<u8>>) -> (r: Result<
    Vec<StoredEvent>,
    (usize, FieldReason),
>)
    requires
        fields@.len() == 8,
    ensures
        reads_as(r, row_events(kind, fields_view(fields@))),
{
    let exch_ts: i64 = match parse_timestamp(&fields[2]) {
        Ok(exch_ts) => exch_ts,
        Err(reason) => {
            return Err((2, reason));
        },
    };
    let local_ts: i64 = match parse_timestamp(&fields[3]) {
        Ok(local_ts) => local_ts,
        Err(reason) => {
            return Err((3, reason));
        },
    };
    parse_events(kind, fields, exch_ts, local_ts)
}

/// Streams original CSV fields into exact fixed-point events, without a floating-point stage.
#[derive(Debug)]
pub struct TardisReader {
    /// The file.
    pub path: String,
    /// The feed.
    pub kind: FeedKind,
    /// The header row.
    pub headers: Vec<Vec<u8>>,
    /// The records, or `None` for one that could not be read.
    pub records: Vec<Option<Vec<Vec<u8>>>>,
    /// The next record.
    pub next: usize,
    /// The number of rows that were read, the header row included.
    pub row: u128,
}

/// Whether every record that could be read has as many fields as a feed has.
pub open spec fn records_ok(records: Seq<Option<Vec<Vec<u8>>>>) -> bool {
    forall|i: int| 0 <= i < records.len() ==> ((#[trigger] records[i]) is Some ==> records[i]->0@.len() == 8)
}

impl TardisReader {
    /// Whether the reader is in order.
    pub open spec fn wf(&self) -> bool {
        &&& headers_ok(self.kind, fields_view(self.headers@))
        &&& records_ok(self.records@)
        &&& self.next <= self.records@.len()
        &&& self.row <= self.next + 1
    }

    /// Starts to read a file, unpacking it first where it is compressed. Of a compressed file that is
    /// damaged, the records in front of the damage are read, and there is an error behind them.
    pub fn open(path: String, kind: FeedKind, content: &[u8], compressed: bool) -> (r: Result<
        TardisReader,
        TardisError,
    >)
        ensures
            match r {
                Ok(reader) => {
                    &&& reader.wf()
                    &&& reader.starts(path@, kind, content@, compressed)
                },
                Err(error) => {
                    &&& error.path@ == path@
                    &&& start_fault(kind, content@, compressed) == Some(error.fault)
                },
            },
    {
        if compressed {
            match gunzip(content) {
                Some(bytes) => TardisReader::from_reader(path, kind, bytes.as_slice()),
                None => {
                    let headers: Option<Vec<Vec<u8>>> = gzip_headers(content);
                    let records: Vec<Option<Vec<Vec<u8>>>> = gzip_records(content);
                    TardisReader::from_table(path, kind, headers, records)
                },
            }
        } else {
            TardisReader::from_reader(path, kind, content)
        }
    }

    /// Whether this is a reader at the start of a file.
    pub open spec fn starts(
        &self,
        path: Seq<char>,
        kind: FeedKind,
        content: Seq<u8>,
        compressed: bool,
    ) -> bool {
        &&& self.path@ == path
        &&& self.kind == kind
        &&& self.next == 0
        &&& self.row == 1
        &&& start_fault(kind, content, compressed) is None
        &&& records_view(self.records@) == feed_records(content, compressed)
        &&& Some(fields_view(self.headers@)) == feed_headers(content, compressed)
    }

    /// Starts to read CSV data.
    pub fn from_reader(path: String, kind: FeedKind, input: &[u8]) -> (r: Result<
        TardisReader,
        TardisError,
    >)
        ensures
            match r {
                Ok(reader) => reader.wf() && reader.starts(path@, kind, input@, false),
                Err(error) => error.path@ == path@ && start_fault(kind, input@, false) == Some(
                    error.fault,
                ),
            },
    {
        let headers: Option<Vec<Vec<u8>>> = csv_headers(input);
        let records: Vec<Option<Vec<Vec<u8>>>> = csv_records(input);
        TardisReader::from_table(path, kind, headers, records)
    }

    /// Starts to read a header row and records.
    pub fn from_table(
        path: String,
        kind: FeedKind,
        headers: Option<Vec<Vec<u8>>>,
        records: Vec<Option<Vec<Vec<u8>>>>,
    ) -> (r: Result<TardisReader, TardisError>)
        requires
            headers matches Some(h) ==> forall|i: int|
                0 <= i < records@.len() ==> ((#[trigger] records@[i]) is Some
                    ==> records@[i]->0@.len() == h@.len()),
        ensures
            match r {
                Ok(reader) => {
                    &&& reader.wf()
                    &&& headers is Some && headers_ok(kind, fields_view(headers->0@))
                    &&& reader == (TardisReader {
                        path,
                        kind,
                        headers: headers->0,
                        records,
                        next: 0,
                        row: 1,
                    })
                },
                Err(error) => {
                    &&& error.path@ == path@
                    &&& error.fault == (if headers is None {
                        FeedFault::HeaderUnreadable
                    } else {
                        FeedFault::HeaderUnexpected
                    })
                    &&& headers matches Some(h) ==> !headers_ok(kind, fields_view(h@))
                },
            },
    {
        match headers {
            None => Err(
                TardisError {
                    path,
                    fault: FeedFault::HeaderUnreadable,
                    field: Vec::new(),
                    value: Vec::new(),
                },
            ),
            Some(headers) => if check_headers(kind, &headers) {
                Ok(TardisReader { path, kind, headers, records, next: 0, row: 1 })
            } else {
                Err(
                    TardisError {
                        path,
                        fault: FeedFault::HeaderUnexpected,
                        field: Vec::new(),
                        value: Vec::new(),
                    },
                )
            },
        }
    }

    /// Reads the next record.
    ///
    /// A book ticker record yields ask then bid; other records yield one event.
    pub fn next_events(&mut self) -> (r: Result<Option<Vec<StoredEvent>>, TardisError>)
        requires
            old(self).wf(),
        ensures
            final(self).wf(),
            final(self).path@ == old(self).path@,
            final(self).kind == old(self).kind,
            final(self).headers@ == old(self).headers@,
            final(self).records@ == old(self).records@,
            old(self).next == old(self).records@.len() <==> r matches Ok(None),
            old(self).next == old(self).records@.len() ==> final(self).next == old(self).next
                && final(self).row == old(self).row,
            old(self).next < old(self).records@.len() ==> ({
                let record = records_view(old(self).records@)[old(self).next as int];
                &&& final(self).next == old(self).next + 1
                &&& final(self).row == old(self).row + (if record is Some {
                    1int
                } else {
                    0
                })
                &&& match r {
                    Ok(events) => events is Some && record_events(
                        old(self).kind,
                        old(self).row + 1,
                        record,
                    ) == Ok::<Seq<StoredEvent>, FeedFault>(events->0@),
                    Err(error) => {
                        &&& error.path@ == old(self).path@
                        &&& record_events(old(self).kind, old(self).row + 1, record) == Err::<
                            Seq<StoredEvent>,
                            FeedFault,
                        >(error.fault)
                        &&& error.fault matches FeedFault::Field { column, .. } ==> error.field@
                            == fields_view(old(self).headers@)[column as int] && error.value@
                            == record->0[column as int]
                    },
                }
            }),
    {
        if self.next == self.records.len() {
            return Ok(None);
        }
        let index: usize = self.next;
        self.next = index + 1;
        let path: String = self.path.clone();
        match &self.records[index] {
            None => Err(
                TardisError {
                    path,
                    fault: FeedFault::Record { record: self.row + 1 },
                    field: Vec::new(),
                    value: Vec::new(),
                },
            ),
            Some(fields) => {
                self.row = self.row + 1;
                assert(records_view(self.records@)[index as int] == Some(fields_view(fields@)));
                assert(fields@.len() == 8);
                match parse_row(self.kind, fields) {
                    Ok(events) => Ok(Some(events)),
                    Err((column, reason)) => {
                        proof {
                            lemma_fault_column(self.kind, fields_view(fields@));
                        }
                        Err(
                            TardisError {
                                path,
                                fault: FeedFault::Field { record: self.row, column, reason },
                                field: self.headers[column].clone(),
                                value: fields[column].clone(),
                            },
                        )
                    },
                }
            },
        }
    }
}

/// A fault lies in one of the columns of a feed.
proof fn lemma_fault_column(kind: FeedKind, fields: Seq<Seq<u8>>)
    ensures
        row_events(kind, fields) matches Err(fault) ==> fault.0 < 8,
{
}

/// The fields of the header row of a file.
pub open spec fn feed_headers(content: Seq<u8>, compressed: bool) -> Option<Seq<Seq<u8>>> {
    if !compressed {
        outside_csv_headers(content)
    } else {
        match outside_gunzip(content) {
            Some(bytes) => outside_csv_headers(bytes),
            None => outside_gzip_headers(content),
        }
    }
}

/// The records of a file behind the header row, each with its fields or an error.
pub open spec fn feed_records(content: Seq<u8>, compressed: bool) -> Seq<Option<Seq<Seq<u8>>>> {
    if !compressed {
        outside_csv_records(content)
    } else {
        match outside_gunzip(content) {
            Some(bytes) => outside_csv_records(bytes),
            None => outside_gzip_records(content),
        }
    }
}

/// Why a file cannot be started to be read.
pub open spec fn start_fault(kind: FeedKind, content: Seq<u8>, compressed: bool) -> Option<
    FeedFault,
> {
    match feed_headers(content, compressed) {
        None => Some(FeedFault::HeaderUnreadable),
        Some(headers) => if headers_ok(kind, headers) {
            None
        } else {
            Some(FeedFault::HeaderUnexpected)
        },
    }
}

/// The events of one record, or what is wrong with it.
pub open spec fn record_events(kind: FeedKind, number: int, record: Option<Seq<Seq<u8>>>) -> Result<
    Seq<StoredEvent>,
    FeedFault,
> {
    match record {
        None => Err(FeedFault::Record { record: number as u128 }),
        Some(fields) => match row_events(kind, fields) {
            Err((column, reason)) => Err(
                FeedFault::Field { record: number as u128, column, reason },
            ),
            Ok(events) => Ok(events),
        },
    }
}

/// The events of all records, or the first fault in them.
pub open spec fn rows_events(kind: FeedKind, records: Seq<Option<Seq<Seq<u8>>>>) -> Result<
    Seq<StoredEvent>,
    FeedFault,
>
    decreases records.len(),
{
    if records.len() == 0 {
        Ok(Seq::empty())
    } else {
        match rows_events(kind, records.drop_last()) {
            Err(fault) => Err(fault),
            Ok(before) => match record_events(kind, records.len() as int + 1, records.last()) {
                Err(fault) => Err(fault),
                Ok(events) => Ok(before + events),
            },
        }
    }
}

/// The events of a file, or the first fault in it.
pub open spec fn feed_events(kind: FeedKind, content: Seq<u8>, compressed: bool) -> Result<
    Seq<StoredEvent>,
    FeedFault,
> {
    match start_fault(kind, content, compressed) {
        Some(fault) => Err(fault),
        None => rows_events(kind, feed_records(content, compressed)),
    }
}

/// A fault in the first records stays the first one.
proof fn lemma_rows_fault(kind: FeedKind, records: Seq<Option<Seq<Seq<u8>>>>, k: int)
    requires
        0 <= k <= records.len(),
        rows_events(kind, records.take(k)) is Err,
    ensures
        rows_events(kind, records) == rows_events(kind, records.take(k)),
    decreases records.len(),
{
    if k == records.len() {
        assert(records.take(k) =~= records);
    } else {
        assert(records.drop_last().take(k) =~= records.take(k));
        lemma_rows_fault(kind, records.drop_last(), k);
    }
}

/// Reads all events of a file.
pub fn read_feed(path: &str, kind: FeedKind, content: &[u8], compressed: bool) -> (r: Result<
    Vec<StoredEvent>,
    TardisError,
>)
    ensures
        match r {
            Ok(events) => feed_events(kind, content@, compressed) == Ok::<
                Seq<StoredEvent>,
                FeedFault,
            >(events@),
            Err(error) => error.path@ == path@ && feed_events(kind, content@, compressed) == Err::<
                Seq<StoredEvent>,
                FeedFault,
            >(error.fault),
        },
{
    let mut reader: TardisReader = match TardisReader::open(
        path.to_owned(),
        kind,
        content,
        compressed,
    ) {
        Ok(reader) => reader,
        Err(error) => {
            return Err(error);
        },
    };
    let mut events: Vec<StoredEvent> = Vec::new();
    let ghost records = records_view(reader.records@);
    assert(records.take(0) =~= Seq::empty());
    while reader.next < reader.records.len()
        invariant
            reader.wf(),
            reader.path@ == path@,
            reader.kind == kind,
            reader.row == reader.next + 1,
            records == records_view(reader.records@),
            feed_events(kind, content@, compressed) == rows_events(kind, records),
            rows_events(kind, records.take(reader.next as int)) == Ok::<
                Seq<StoredEvent>,
                FeedFault,
            >(events@),
        decreases reader.records@.len() - reader.next,
    {
        let ghost next = reader.next as int;
        proof {
            assert(records.take(next + 1).drop_last() =~= records.take(next));
            assert(records.take(next + 1).last() == records[next]);
            if rows_events(kind, records.take(next + 1)) is Err {
                lemma_rows_fault(kind, records, next + 1);
            }
        }
        match reader.next_events() {
            Err(error) => {
                return Err(error);
            },
            Ok(Some(mut row)) => {
                events.append(&mut row);
            },
            Ok(None) => {},
        }
    }
    assert(records.take(reader.next as int) =~= records);
    Ok(events)
}

/// Bytes spell at most one text.
proof fn lemma_spelled_once(bytes: Seq<u8>, a: Seq<char>, b: Seq<char>)
    requires
        spells(bytes, a),
        spells(bytes, b),
    ensures
        a == b,
{
    encode_utf8_decode_utf8(a);
    encode_utf8_decode_utf8(b);
}

/// No two of the names of fields are the same.
proof fn lemma_names_differ(kind: FeedKind, i: int, j: int)
    requires
        0 <= i < 8,
        0 <= j < 8,
        expected_headers(kind)[i] == expected_headers(kind)[j],
    ensures
        i == j,
{
    reveal_strlit("exchange");
    reveal_strlit("symbol");
    reveal_strlit("timestamp");
    reveal_strlit("local_timestamp");
    reveal_strlit("id");
    reveal_strlit("is_snapshot");
    reveal_strlit("side");
    reveal_strlit("price");
    reveal_strlit("amount");
    reveal_strlit("ask_amount");
    reveal_strlit("ask_price");
    reveal_strlit("bid_price");
    reveal_strlit("bid_amount");
    let names = expected_headers(kind);
    assert(names[0].len() == 8);
    assert(names[1].len() == 6 && names[1][0] == 's');
    assert(names[2].len() == 9 && names[2][0] == 't');
    assert(names[3].len() == 15);
    match kind {
        FeedKind::BookTicker => {
            assert(names[4].len() == 10 && names[4][0] == 'a');
            assert(names[5].len() == 9 && names[5][0] == 'a');
            assert(names[6].len() == 9 && names[6][0] == 'b');
            assert(names[7].len() == 10 && names[7][0] == 'b');
        },
        _ => {
            assert(names[4].len() == 2 || names[4].len() == 11);
            assert(names[5].len() == 4);
            assert(names[6].len() == 5);
            assert(names[7].len() == 6 && names[7][0] == 'a');
        },
    }
}

/// Which column of an accepted header row has a name.
proof fn lemma_named_column(kind: FeedKind, headers: Seq<Seq<u8>>, i: int, column: int)
    requires
        headers_ok(kind, headers),
        0 <= i < 8,
        0 <= column < 8,
        spells(headers[i], expected_headers(kind)[column]),
    ensures
        i == column,
{
    lemma_spelled_once(headers[i], expected_headers(kind)[column], expected_headers(kind)[i]);
    lemma_names_differ(kind, i, column);
}

/// Flags of events hold the kind and the sides that they were made of.
proof fn lemma_row_flags()
    ensures
        kind_of(DEPTH_BBO_EVENT | SELL_EVENT) == DEPTH_BBO_EVENT,
        kind_of(DEPTH_BBO_EVENT | BUY_EVENT) == DEPTH_BBO_EVENT,
        (DEPTH_BBO_EVENT | SELL_EVENT) & SELL_EVENT != 0,
        (DEPTH_BBO_EVENT | SELL_EVENT) & BUY_EVENT == 0,
        (DEPTH_BBO_EVENT | BUY_EVENT) & BUY_EVENT != 0,
        (DEPTH_BBO_EVENT | BUY_EVENT) & SELL_EVENT == 0,
{
    assert((5u64 | 0x1000_0000) & 0xff == 5) by (bit_vector);
    assert((5u64 | 0x2000_0000) & 0xff == 5) by (bit_vector);
    assert((5u64 | 0x1000_0000) & 0x1000_0000 != 0) by (bit_vector);
    assert((5u64 | 0x1000_0000) & 0x2000_0000 == 0) by (bit_vector);
    assert((5u64 | 0x2000_0000) & 0x2000_0000 != 0) by (bit_vector);
    assert((5u64 | 0x2000_0000) & 0x1000_0000 == 0) by (bit_vector);
}

/// Whether the times of an event are those of two fields, which give microseconds.
pub open spec fn timed_by(event: StoredEvent, exchange_field: Seq<u8>, local_field: Seq<u8>) -> bool {
    &&& integer_of(exchange_field) matches Some(n) && n >= 0 && event.exch_ts == n * 1000
    &&& integer_of(local_field) matches Some(n) && n >= 0 && event.local_ts == n * 1000
}

/// Whether the price and the quantity of an event are those of two fields.
pub open spec fn priced_by(event: StoredEvent, price_field: Seq<u8>, amount_field: Seq<u8>) -> bool {
    &&& plain_value(price_field) == Ok::<i64, ParseFixedError>(event.px)
    &&& plain_value(amount_field) == Ok::<i64, ParseFixedError>(event.qty)
    &&& event.px > 0
    &&& event.qty >= 0
}

/// Whether a field gives a timestamp that can be stored.
pub open spec fn gives_time(field: Seq<u8>) -> bool {
    integer_of(field) matches Some(n) && 0 <= n * 1000 <= i64::MAX
}

/// Whether two fields give a price and a quantity.
pub open spec fn gives_level(price_field: Seq<u8>, amount_field: Seq<u8>) -> bool {
    &&& plain_value(price_field) matches Ok(px) && px > 0
    &&& plain_value(amount_field) matches Ok(qty) && qty >= 0
}

/// A record of best bids and offers is read by the names in its header row. Its first event is an
/// ask, with the price and the quantity of the columns `ask_price` and `ask_amount`, and its second
/// a bid, with those of `bid_price` and `bid_amount`. Both have the times of the columns `timestamp`
/// and `local_timestamp`. There are events exactly where all six columns hold proper values.
pub proof fn ticker_events_follow_the_header(
    headers: Seq<Seq<u8>>,
    fields: Seq<Seq<u8>>,
    exchange_time: int,
    local_time: int,
    ask_price: int,
    ask_amount: int,
    bid_price: int,
    bid_amount: int,
)
    requires
        headers_ok(FeedKind::BookTicker, headers),
        0 <= exchange_time < 8,
        0 <= local_time < 8,
        0 <= ask_price < 8,
        0 <= ask_amount < 8,
        0 <= bid_price < 8,
        0 <= bid_amount < 8,
        spells(headers[exchange_time], "timestamp"@),
        spells(headers[local_time], "local_timestamp"@),
        spells(headers[ask_price], "ask_price"@),
        spells(headers[ask_amount], "ask_amount"@),
        spells(headers[bid_price], "bid_price"@),
        spells(headers[bid_amount], "bid_amount"@),
    ensures
        row_events(FeedKind::BookTicker, fields) is Ok <==> {
            &&& gives_time(fields[exchange_time])
            &&& gives_time(fields[local_time])
            &&& gives_level(fields[ask_price], fields[ask_amount])
            &&& gives_level(fields[bid_price], fields[bid_amount])
        },
        row_events(FeedKind::BookTicker, fields) matches Ok(events) ==> {
            &&& events.len() == 2
            &&& kind_of(events[0].ev) == DEPTH_BBO_EVENT
            &&& kind_of(events[1].ev) == DEPTH_BBO_EVENT
            &&& events[0].ev & SELL_EVENT != 0 && events[0].ev & BUY_EVENT == 0
            &&& events[1].ev & BUY_EVENT != 0 && events[1].ev & SELL_EVENT == 0
            &&& priced_by(events[0], fields[ask_price], fields[ask_amount])
            &&& priced_by(events[1], fields[bid_price], fields[bid_amount])
            &&& timed_by(events[0], fields[exchange_time], fields[local_time])
            &&& timed_by(events[1], fields[exchange_time], fields[local_time])
        },
{
    lemma_named_column(FeedKind::BookTicker, headers, exchange_time, 2);
    lemma_named_column(FeedKind::BookTicker, headers, local_time, 3);
    lemma_named_column(FeedKind::BookTicker, headers, ask_amount, 4);
    lemma_named_column(FeedKind::BookTicker, headers, ask_price, 5);
    lemma_named_column(FeedKind::BookTicker, headers, bid_price, 6);
    lemma_named_column(FeedKind::BookTicker, headers, bid_amount, 7);
    lemma_row_flags();
}

/// Whether a field names the side of bids.
pub open spec fn names_buy(field: Seq<u8>) -> bool {
    spells(field, "buy"@) || spells(field, "bid"@)
}

/// Whether a field names the side of asks.
pub open spec fn names_sell(field: Seq<u8>) -> bool {
    spells(field, "sell"@) || spells(field, "ask"@)
}

/// No field names both sides, and none is both true and false.
proof fn lemma_words_differ(field: Seq<u8>)
    ensures
        !(names_buy(field) && names_sell(field)),
        !(spells(field, "true"@) && spells(field, "false"@)),
{
    reveal_strlit("buy");
    reveal_strlit("bid");
    reveal_strlit("sell");
    reveal_strlit("ask");
    reveal_strlit("true");
    reveal_strlit("false");
    if names_buy(field) && names_sell(field) {
        let a = if spells(field, "buy"@) {
            "buy"@
        } else {
            "bid"@
        };
        let b = if spells(field, "sell"@) {
            "sell"@
        } else {
            "ask"@
        };
        lemma_spelled_once(field, a, b);
        assert(a[0] == b[0]);
    }
    if spells(field, "true"@) && spells(field, "false"@) {
        lemma_spelled_once(field, "true"@, "false"@);
        assert("true"@[0] == "false"@[0]);
    }
}

/// A record of trades is read by the names in its header row: one trade, with the price and the
/// quantity of the columns `price` and `amount`, on the side that the column `side` names, at the
/// times of the columns `timestamp` and `local_timestamp`. There is an event exactly where all five
/// hold proper values.
pub proof fn trade_events_follow_the_header(
    headers: Seq<Seq<u8>>,
    fields: Seq<Seq<u8>>,
    exchange_time: int,
    local_time: int,
    side: int,
    price: int,
    amount: int,
)
    requires
        headers_ok(FeedKind::Trades, headers),
        0 <= exchange_time < 8,
        0 <= local_time < 8,
        0 <= side < 8,
        0 <= price < 8,
        0 <= amount < 8,
        spells(headers[exchange_time], "timestamp"@),
        spells(headers[local_time], "local_timestamp"@),
        spells(headers[side], "side"@),
        spells(headers[price], "price"@),
        spells(headers[amount], "amount"@),
    ensures
        row_events(FeedKind::Trades, fields) is Ok <==> {
            &&& gives_time(fields[exchange_time])
            &&& gives_time(fields[local_time])
            &&& names_buy(fields[side]) || names_sell(fields[side])
            &&& gives_level(fields[price], fields[amount])
        },
        row_events(FeedKind::Trades, fields) matches Ok(events) ==> {
            &&& events.len() == 1
            &&& kind_of(events[0].ev) == TRADE_EVENT
            &&& (events[0].ev & BUY_EVENT != 0) == names_buy(fields[side])
            &&& (events[0].ev & SELL_EVENT != 0) == names_sell(fields[side])
            &&& priced_by(events[0], fields[price], fields[amount])
            &&& timed_by(events[0], fields[exchange_time], fields[local_time])
        },
{
    lemma_named_column(FeedKind::Trades, headers, exchange_time, 2);
    lemma_named_column(FeedKind::Trades, headers, local_time, 3);
    lemma_named_column(FeedKind::Trades, headers, side, 5);
    lemma_named_column(FeedKind::Trades, headers, price, 6);
    lemma_named_column(FeedKind::Trades, headers, amount, 7);
    lemma_words_differ(fields[5]);
    lemma_level_flags();
}

/// A record of depth is read by the names in its header row: one event, with the price and the
/// quantity of the columns `price` and `amount`, on the side that the column `side` names, at the
/// times of the columns `timestamp` and `local_timestamp`. It is a row of a snapshot where the column
/// `is_snapshot` says so, and else an update. There is an event exactly where all six hold proper
/// values.
pub proof fn depth_events_follow_the_header(
    headers: Seq<Seq<u8>>,
    fields: Seq<Seq<u8>>,
    exchange_time: int,
    local_time: int,
    snapshot: int,
    side: int,
    price: int,
    amount: int,
)
    requires
        headers_ok(FeedKind::Depth, headers),
        0 <= exchange_time < 8,
        0 <= local_time < 8,
        0 <= snapshot < 8,
        0 <= side < 8,
        0 <= price < 8,
        0 <= amount < 8,
        spells(headers[exchange_time], "timestamp"@),
        spells(headers[local_time], "local_timestamp"@),
        spells(headers[snapshot], "is_snapshot"@),
        spells(headers[side], "side"@),
        spells(headers[price], "price"@),
        spells(headers[amount], "amount"@),
    ensures
        row_events(FeedKind::Depth, fields) is Ok <==> {
            &&& gives_time(fields[exchange_time])
            &&& gives_time(fields[local_time])
            &&& spells(fields[snapshot], "true"@) || spells(fields[snapshot], "false"@)
            &&& names_buy(fields[side]) || names_sell(fields[side])
            &&& gives_level(fields[price], fields[amount])
        },
        row_events(FeedKind::Depth, fields) matches Ok(events) ==> {
            &&& events.len() == 1
            &&& spells(fields[snapshot], "true"@) ==> kind_of(events[0].ev) == DEPTH_SNAPSHOT_EVENT
            &&& spells(fields[snapshot], "false"@) ==> kind_of(events[0].ev) == DEPTH_EVENT
            &&& (events[0].ev & BUY_EVENT != 0) == names_buy(fields[side])
            &&& (events[0].ev & SELL_EVENT != 0) == names_sell(fields[side])
            &&& priced_by(events[0], fields[price], fields[amount])
            &&& timed_by(events[0], fields[exchange_time], fields[local_time])
        },
{
    lemma_named_column(FeedKind::Depth, headers, exchange_time, 2);
    lemma_named_column(FeedKind::Depth, headers, local_time, 3);
    lemma_named_column(FeedKind::Depth, headers, snapshot, 4);
    lemma_named_column(FeedKind::Depth, headers, side, 5);
    lemma_named_column(FeedKind::Depth, headers, price, 6);
    lemma_named_column(FeedKind::Depth, headers, amount, 7);
    lemma_words_differ(fields[4]);
    lemma_words_differ(fields[5]);
    lemma_level_flags();
}

/// Flags of trades and depth updates hold the kind and the side that they were made of.
proof fn lemma_level_flags()
    ensures
        forall|kind: u64, side: u64|
            #![trigger kind | side]
            (kind == TRADE_EVENT || kind == DEPTH_EVENT || kind == DEPTH_SNAPSHOT_EVENT) && (side
                == BUY_EVENT || side == SELL_EVENT) ==> {
                &&& kind_of(kind | side) == kind
                &&& ((kind | side) & BUY_EVENT != 0) == (side == BUY_EVENT)
                &&& ((kind | side) & SELL_EVENT != 0) == (side == SELL_EVENT)
            },
{
    assert forall|kind: u64, side: u64|
        #![trigger kind | side]
        (kind == TRADE_EVENT || kind == DEPTH_EVENT || kind == DEPTH_SNAPSHOT_EVENT) && (side
            == BUY_EVENT || side == SELL_EVENT) implies {
        &&& kind_of(kind | side) == kind
        &&& ((kind | side) & BUY_EVENT != 0) == (side == BUY_EVENT)
        &&& ((kind | side) & SELL_EVENT != 0) == (side == SELL_EVENT)
    } by {
        assert((kind | side) & 0xff == kind && ((kind | side) & 0x2000_0000 != 0) == (side
            == 0x2000_0000) && ((kind | side) & 0x1000_0000 != 0) == (side == 0x1000_0000))
            by (bit_vector)
            requires
                kind == 1 || kind == 2 || kind == 4,
                side == 0x2000_0000 || side == 0x1000_0000,
        ;
    }
}

/// The integer that a field spells: a digit stands for its number, a digit behind digits adds to ten
/// times what stands before it, a minus sign negates, a plus sign changes nothing, and nothing else
/// is an integer.
pub proof fn integers_are_read_digit_by_digit(digits: Seq<u8>, digit: u8)
    requires
        48 <= digit <= 57,
    ensures
        integer_of(seq![digit]) == Some((digit - 48) as i64),
        integer_of(seq![43u8]) is None,
        integer_of(seq![45u8]) is None,
        integer_of(Seq::empty()) is None,
        digits.len() > 0 && all_digits(digits) && integer_of(digits) is Some && 10 * integer_of(
            digits,
        )->0 + (digit - 48) <= i64::MAX ==> integer_of(digits.push(digit)) == Some(
            (10 * integer_of(digits)->0 + (digit - 48)) as i64,
        ),
        digits.len() > 0 && all_digits(digits) && integer_of(digits) is Some ==> integer_of(
            seq![45u8] + digits,
        ) == Some((-integer_of(digits)->0) as i64) && integer_of(seq![43u8] + digits)
            == integer_of(digits),
        integer_of(digits) is Some ==> without_sign(digits).len() > 0 && all_digits(
            without_sign(digits),
        ),
{
    let one = seq![digit];
    assert(one.drop_last() =~= Seq::empty());
    assert(number_of(one) == digit - 48) by {
        assert(number_of(Seq::empty()) == 0);
    }
    assert(seq![43u8].skip(1) =~= Seq::empty());
    assert(seq![45u8].skip(1) =~= Seq::empty());
    if digits.len() > 0 && all_digits(digits) {
        let longer = digits.push(digit);
        assert(is_digit(digits[0]));
        assert(longer[0] == digits[0]);
        assert(longer.drop_last() =~= digits);
        assert forall|k: int| 0 <= k < longer.len() implies is_digit(#[trigger] longer[k]) by {
            if k < digits.len() {
                assert(is_digit(digits[k]));
            }
        }
        lemma_number_bounds(digits);
        assert((seq![45u8] + digits).skip(1) =~= digits);
        assert((seq![43u8] + digits).skip(1) =~= digits);
    }
}

/// Where the events of a record stand among those of a file.
pub open spec fn place_of(kind: FeedKind, record: int) -> int {
    if kind == FeedKind::BookTicker {
        2 * record
    } else {
        record
    }
}

/// The events of a file are those of its records, in the order of the records: two for each record
/// of best bids and offers and one for each other record. Every record was read then.
pub proof fn feeds_are_read_in_order(kind: FeedKind, content: Seq<u8>, compressed: bool, j: int)
    requires
        feed_events(kind, content, compressed) is Ok,
        0 <= j < feed_records(content, compressed).len(),
    ensures
        ({
            let records = feed_records(content, compressed);
            let events = feed_events(kind, content, compressed)->Ok_0;
            &&& events.len() == place_of(kind, records.len() as int)
            &&& records[j] matches Some(fields) && row_events(kind, fields) == Ok::<
                Seq<StoredEvent>,
                (usize, FieldReason),
            >(events.subrange(place_of(kind, j), place_of(kind, j + 1)))
        }),
{
    lemma_rows_in_order(kind, feed_records(content, compressed), j);
}

/// The events of records are those of each, in order.
#[verifier::spinoff_prover]
#[verifier::rlimit(80)]
proof fn lemma_rows_in_order(kind: FeedKind, records: Seq<Option<Seq<Seq<u8>>>>, j: int)
    requires
        rows_events(kind, records) is Ok,
        0 <= j < records.len() || records.len() == 0,
    ensures
        ({
            let events = rows_events(kind, records)->Ok_0;
            &&& events.len() == place_of(kind, records.len() as int)
            &&& records.len() > 0 ==> (records[j] matches Some(fields) && row_events(kind, fields)
                == Ok::<Seq<StoredEvent>, (usize, FieldReason)>(
                events.subrange(place_of(kind, j), place_of(kind, j + 1)),
            ))
        }),
    decreases records.len(),
{
    if records.len() > 0 {
        let front = records.drop_last();
        let events = rows_events(kind, records)->Ok_0;
        let before = rows_events(kind, front)->Ok_0;
        let last = record_events(kind, records.len() as int + 1, records.last())->Ok_0;
        let from = place_of(kind, j);
        let to = place_of(kind, j + 1);
        assert(events == before + last);
        assert(last.len() == place_of(kind, 1)) by {
            lemma_row_length(kind, records.last()->0);
        }
        if j < front.len() {
            lemma_rows_in_order(kind, front, j);
            assert(front[j] == records[j]);
            assert(events.subrange(from, to) =~= before.subrange(from, to));
        } else {
            lemma_rows_in_order(kind, front, 0);
            assert(events.subrange(from, to) =~= last);
        }
    }
}

/// How many events a record gives.
proof fn lemma_row_length(kind: FeedKind, fields: Seq<Seq<u8>>)
    ensures
        row_events(kind, fields) matches Ok(events) ==> events.len() == place_of(kind, 1),
{
}

/// The first record that cannot be read, or the first field of it that is not in order, is the
/// fault of a file: the header row, then the records in their order, counted from the header row
/// as one.
pub proof fn the_first_fault_is_reported(kind: FeedKind, content: Seq<u8>, compressed: bool, j: int)
    requires
        feed_headers(content, compressed) matches Some(headers) && headers_ok(kind, headers),
        0 <= j < feed_records(content, compressed).len(),
        j + 2 <= u128::MAX,
        forall|i: int|
            0 <= i < j ==> ((#[trigger] feed_records(content, compressed)[i]) matches Some(fields)
                && row_events(kind, fields) is Ok),
    ensures
        feed_records(content, compressed)[j] is None ==> feed_events(kind, content, compressed)
            == Err::<Seq<StoredEvent>, FeedFault>(FeedFault::Record { record: (j + 2) as u128 }),
        feed_records(content, compressed)[j] matches Some(fields) ==> (row_events(
            kind,
            fields,
        ) matches Err((column, reason)) ==> feed_events(kind, content, compressed) == Err::<
            Seq<StoredEvent>,
            FeedFault,
        >(FeedFault::Field { record: (j + 2) as u128, column, reason })),
{
    let records = feed_records(content, compressed);
    lemma_rows_read(kind, records, j);
    assert(records.take(j + 1).drop_last() =~= records.take(j));
    assert(records.take(j + 1).last() == records[j]);
    if rows_events(kind, records.take(j + 1)) is Err {
        lemma_rows_fault(kind, records, j + 1);
    }
}

/// Records that are all in order are read.
proof fn lemma_rows_read(kind: FeedKind, records: Seq<Option<Seq<Seq<u8>>>>, k: int)
    requires
        0 <= k <= records.len(),
        forall|i: int|
            0 <= i < k ==> ((#[trigger] records[i]) matches Some(fields) && row_events(
                kind,
                fields,
            ) is Ok),
    ensures
        rows_events(kind, records.take(k)) is Ok,
    decreases k,
{
    if k > 0 {
        lemma_rows_read(kind, records, k - 1);
        assert(records.take(k).drop_last() =~= records.take(k - 1));
        assert(records.take(k).last() == records[k - 1]);
    }
}

/// A file whose header row and records are all in order is read.
pub proof fn proper_feeds_are_read(kind: FeedKind, content: Seq<u8>, compressed: bool)
    requires
        feed_headers(content, compressed) matches Some(headers) && headers_ok(kind, headers),
        forall|i: int|
            0 <= i < feed_records(content, compressed).len() ==> ((#[trigger] feed_records(
                content,
                compressed,
            )[i]) matches Some(fields) && row_events(kind, fields) is Ok),
    ensures
        feed_events(kind, content, compressed) is Ok,
{
    let records = feed_records(content, compressed);
    lemma_rows_read(kind, records, records.len() as int);
    assert(records.take(records.len() as int) =~= records);
}

} // verus!
