//! The stored form of market data.
use vstd::bytes::lemma_auto_spec_u32_to_from_le_bytes;
use vstd::bytes::lemma_auto_spec_u64_to_from_le_bytes;
use vstd::bytes::spec_u32_from_le_bytes;
use vstd::bytes::spec_u32_to_le_bytes;
use vstd::bytes::spec_u64_from_le_bytes;
use vstd::bytes::spec_u64_to_le_bytes;
use vstd::bytes::u32_from_le_bytes;
use vstd::bytes::u32_to_le_bytes;
use vstd::bytes::u64_from_le_bytes;
use vstd::bytes::u64_to_le_bytes;
use vstd::prelude::*;
use vstd::slice::slice_subrange;
use vstd::string::*;

use crate::data::fixed::decode_fixed;
use crate::data::fixed::DATA_SCALE;
use crate::decimal::a_decimal_is_its_parts;
use crate::decimal::pow10;
use crate::decimal::value_of;
use crate::decimal::Decimal;
use crate::decimal::lemma_pow10_positive;
use crate::models::latency::OrderLatencyRow;
use crate::text::append_number;
use crate::text::is_text;
use crate::text::number_text;
use crate::types::Event;

verus! {

/// On-disk event. Prices and quantities are signed integers at [`DATA_SCALE`].
#[derive(Clone, Copy, Debug, PartialEq, Eq, Structural)]
pub struct StoredEvent {
    /// Event flag
    pub ev: u64,
    /// Exchange timestamp
    pub exch_ts: i64,
    /// Local timestamp
    pub local_ts: i64,
    /// Price
    pub px: i64,
    /// Quantity
    pub qty: i64,
}

/// How the numbers of a file are scaled.
#[derive(Clone, Copy, Debug, PartialEq, Eq, Structural)]
pub struct MarketDataMetadata {
    /// The scale of prices.
    pub price_scale: u32,
    /// The scale of quantities.
    pub size_scale: u32,
}

impl MarketDataMetadata {
    /// The metadata of the files that can be read.
    pub open spec fn is_current(self) -> bool {
        self.price_scale == DATA_SCALE && self.size_scale == DATA_SCALE
    }

    /// The metadata of the files that can be read.
    pub fn current() -> (r: MarketDataMetadata)
        ensures
            r.is_current(),
    {
        MarketDataMetadata { price_scale: DATA_SCALE, size_scale: DATA_SCALE }
    }
}

/// Why an entry of an archive cannot be read.
#[derive(Clone, Copy, Debug, PartialEq, Eq, Structural)]
pub enum EntryFault {
    /// The archive has no entry of that name.
    Missing,
    /// The archive or the entry is damaged or of a kind that cannot be read, or is no archive.
    Damaged,
}

/// Why an array or an archive is not market data.
#[derive(Debug)]
pub enum FormatError {
    /// The entry of the archive cannot be read.
    Entry(EntryFault),
    /// The header of the array cannot be read.
    BadHeader,
    /// The header of the array is too intricate to be read.
    IntricateHeader,
    /// The array has not one dimension.
    NotOneDimensional,
    /// The array has rows of another type.
    DtypeMismatch {
        /// The type that was expected.
        expected: String,
        /// The type that was found.
        found: String,
    },
    /// More bytes were read than can be counted.
    SizeOverflow,
    /// The array does not fill its entry.
    LengthMismatch {
        /// The number of bytes of the array.
        consumed: u64,
        /// The number of bytes of the entry.
        size: u64,
    },
    /// The array has fewer rows than it says.
    Truncated,
    /// The numbers are scaled in another way.
    UnsupportedScales,
}

/// Why an array or an archive is not market data.
pub enum FormatFault {
    /// The entry of the archive cannot be read.
    Entry(EntryFault),
    /// The header of the array cannot be read.
    BadHeader,
    /// The header of the array is too intricate to be read.
    IntricateHeader,
    /// The array has not one dimension.
    NotOneDimensional,
    /// The array has rows of another type.
    DtypeMismatch {
        /// The type that was expected.
        expected: Seq<char>,
        /// The type that was found.
        found: Seq<char>,
    },
    /// More bytes were read than can be counted.
    SizeOverflow,
    /// The array does not fill its entry.
    LengthMismatch {
        /// The number of bytes of the array.
        consumed: u64,
        /// The number of bytes of the entry.
        size: u64,
    },
    /// The array has fewer rows than it says.
    Truncated,
    /// The numbers are scaled in another way.
    UnsupportedScales,
}

impl View for FormatError {
    type V = FormatFault;

    open spec fn view(&self) -> FormatFault {
        match self {
            FormatError::Entry(fault) => FormatFault::Entry(*fault),
            FormatError::BadHeader => FormatFault::BadHeader,
            FormatError::IntricateHeader => FormatFault::IntricateHeader,
            FormatError::NotOneDimensional => FormatFault::NotOneDimensional,
            FormatError::DtypeMismatch { expected, found } => FormatFault::DtypeMismatch {
                expected: expected@,
                found: found@,
            },
            FormatError::SizeOverflow => FormatFault::SizeOverflow,
            FormatError::LengthMismatch { consumed, size } => FormatFault::LengthMismatch {
                consumed: *consumed,
                size: *size,
            },
            FormatError::Truncated => FormatFault::Truncated,
            FormatError::UnsupportedScales => FormatFault::UnsupportedScales,
        }
    }
}

impl FormatFault {
    /// What went wrong.
    pub open spec fn said(self) -> Seq<char> {
        match self {
            FormatFault::Entry(EntryFault::Missing) => "specified file not found in archive"@,
            FormatFault::Entry(EntryFault::Damaged) => "invalid Zip archive"@,
            FormatFault::BadHeader => "invalid numpy header"@,
            FormatFault::IntricateHeader => "numpy header is too intricate"@,
            FormatFault::NotOneDimensional => "expected a one-dimensional numpy array"@,
            FormatFault::DtypeMismatch { expected, found } => "numpy dtype mismatch: expected "@
                + expected + ", got "@ + found,
            FormatFault::SizeOverflow => "array size overflow"@,
            FormatFault::LengthMismatch { consumed, size } =>
                "numpy payload length mismatch: consumed "@ + number_text(consumed as nat)
                + ", archive entry has "@ + number_text(size as nat),
            FormatFault::Truncated => "failed to fill whole buffer"@,
            FormatFault::UnsupportedScales => "unsupported market data scale metadata"@,
        }
    }
}

impl FormatError {
    /// Says what went wrong.
    pub fn message(&self) -> (r: String)
        ensures
            r@ == self@.said(),
    {
        match self {
            FormatError::Entry(EntryFault::Missing) => {
                "specified file not found in archive".to_owned()
            },
            FormatError::Entry(EntryFault::Damaged) => "invalid Zip archive".to_owned(),
            FormatError::BadHeader => "invalid numpy header".to_owned(),
            FormatError::IntricateHeader => "numpy header is too intricate".to_owned(),
            FormatError::NotOneDimensional => "expected a one-dimensional numpy array".to_owned(),
            FormatError::DtypeMismatch { expected, found } => {
                let mut text: String = "numpy dtype mismatch: expected ".to_owned();
                text.append(expected.as_str());
                text.append(", got ");
                text.append(found.as_str());
                text
            },
            FormatError::SizeOverflow => "array size overflow".to_owned(),
            FormatError::LengthMismatch { consumed, size } => {
                let mut text: String = "numpy payload length mismatch: consumed ".to_owned();
                append_number(&mut text, *consumed as u128);
                text.append(", archive entry has ");
                append_number(&mut text, *size as u128);
                text
            },
            FormatError::Truncated => "failed to fill whole buffer".to_owned(),
            FormatError::UnsupportedScales => "unsupported market data scale metadata".to_owned(),
        }
    }
}

/// The type of the rows of stored events.
pub fn stored_event_dtype() -> (r: &'static str)
    ensures
        r@ == "[('ev', '<u8'), ('exch_ts', '<i8'), ('local_ts', '<i8'), ('px', '<i8'), ('qty', '<i8')]"@,
{
    "[('ev', '<u8'), ('exch_ts', '<i8'), ('local_ts', '<i8'), ('px', '<i8'), ('qty', '<i8')]"
}

/// The type of the row of metadata.
pub fn metadata_dtype() -> (r: &'static str)
    ensures
        r@ == "[('price_scale', '<u4'), ('size_scale', '<u4')]"@,
{
    "[('price_scale', '<u4'), ('size_scale', '<u4')]"
}

/// The type of the rows of order latencies.
pub fn order_latency_dtype() -> (r: &'static str)
    ensures
        r@ == "[('req_ts', '<i8'), ('exch_ts', '<i8'), ('resp_ts', '<i8')]"@,
{
    "[('req_ts', '<i8'), ('exch_ts', '<i8'), ('resp_ts', '<i8')]"
}

/// The bytes of words, the lowest byte of each word first.
pub open spec fn word_bytes(words: Seq<u64>) -> Seq<u8>
    decreases words.len(),
{
    if words.len() == 0 {
        Seq::empty()
    } else {
        word_bytes(words.drop_last()) + spec_u64_to_le_bytes(words.last())
    }
}

/// The word at a place among bytes.
pub open spec fn word_at(bytes: Seq<u8>, i: int) -> u64 {
    spec_u64_from_le_bytes(bytes.subrange(8 * i, 8 * i + 8))
}

/// The bytes of words have the words at their places.
proof fn lemma_word_bytes(words: Seq<u64>)
    ensures
        word_bytes(words).len() == 8 * words.len(),
        forall|i: int|
            0 <= i < words.len() ==> #[trigger] word_at(word_bytes(words), i) == words[i],
    decreases words.len(),
{
    lemma_auto_spec_u64_to_from_le_bytes();
    if words.len() > 0 {
        let front = words.drop_last();
        lemma_word_bytes(front);
        let bytes = word_bytes(words);
        let n = front.len() as int;
        assert forall|i: int| 0 <= i < words.len() implies #[trigger] word_at(bytes, i)
            == words[i] by {
            if i < n {
                assert(bytes.subrange(8 * i, 8 * i + 8) =~= word_bytes(front).subrange(
                    8 * i,
                    8 * i + 8,
                ));
                assert(word_at(word_bytes(front), i) == front[i]);
            } else {
                assert(bytes.subrange(8 * i, 8 * i + 8) =~= spec_u64_to_le_bytes(words.last()));
            }
        }
    }
}

/// Appends a word to bytes.
fn append_word(bytes: &mut Vec<u8>, word: u64)
    ensures
        final(bytes)@ == old(bytes)@ + spec_u64_to_le_bytes(word),
{
    let mut encoded: Vec<u8> = u64_to_le_bytes(word);
    bytes.append(&mut encoded);
}

/// The word at a place among bytes.
fn read_word(bytes: &[u8], i: usize) -> (r: u64)
    requires
        8 * i + 8 <= bytes@.len(),
    ensures
        r == word_at(bytes@, i as int),
{
    let len: usize = bytes.len();
    assert(8 * i + 8 <= len);
    u64_from_le_bytes(slice_subrange(bytes, 8 * i, 8 * i + 8))
}

/// The two's complement of a number.
#[verifier::truncate]
pub open spec fn word_of(n: i64) -> u64 {
    n as u64
}

/// The number of a two's complement.
#[verifier::truncate]
pub open spec fn number_of(word: u64) -> i64 {
    word as i64
}

/// A number is that of its two's complement.
proof fn lemma_number_of_word(n: i64)
    ensures
        number_of(word_of(n)) == n,
{
    assert((n as u64) as i64 == n) by (bit_vector);
}

/// The words of a stored event.
pub open spec fn event_words(event: StoredEvent) -> Seq<u64> {
    seq![
        event.ev,
        word_of(event.exch_ts),
        word_of(event.local_ts),
        word_of(event.px),
        word_of(event.qty),
    ]
}

/// The words of stored events.
pub open spec fn all_event_words(events: Seq<StoredEvent>) -> Seq<u64>
    decreases events.len(),
{
    if events.len() == 0 {
        Seq::empty()
    } else {
        all_event_words(events.drop_last()) + event_words(events.last())
    }
}

/// The stored event at a place among bytes.
pub open spec fn event_at(bytes: Seq<u8>, i: int) -> StoredEvent {
    StoredEvent {
        ev: word_at(bytes, 5 * i),
        exch_ts: number_of(word_at(bytes, 5 * i + 1)),
        local_ts: number_of(word_at(bytes, 5 * i + 2)),
        px: number_of(word_at(bytes, 5 * i + 3)),
        qty: number_of(word_at(bytes, 5 * i + 4)),
    }
}

/// The bytes of stored events.
pub open spec fn event_bytes(events: Seq<StoredEvent>) -> Seq<u8> {
    word_bytes(all_event_words(events))
}

/// The words of stored events have the words of each at its place.
proof fn lemma_event_words(events: Seq<StoredEvent>)
    ensures
        all_event_words(events).len() == 5 * events.len(),
        forall|i: int, k: int|
            0 <= i < events.len() && 0 <= k < 5 ==> all_event_words(events)[5 * i + k]
                == #[trigger] event_words(events[i])[k],
    decreases events.len(),
{
    if events.len() > 0 {
        let front = events.drop_last();
        lemma_event_words(front);
        let words = all_event_words(events);
        assert forall|i: int, k: int| 0 <= i < events.len() && 0 <= k < 5 implies words[5 * i + k]
            == #[trigger] event_words(events[i])[k] by {
            if i < front.len() {
                assert(event_words(front[i])[k] == event_words(events[i])[k]);
            }
        }
    }
}

/// Every stored event is read back from its bytes as it was written.
pub proof fn stored_events_are_read_back(events: Seq<StoredEvent>)
    ensures
        event_bytes(events).len() == 40 * events.len(),
        forall|i: int|
            0 <= i < events.len() ==> #[trigger] event_at(event_bytes(events), i) == events[i],
{
    let words = all_event_words(events);
    lemma_event_words(events);
    lemma_word_bytes(words);
    assert forall|i: int| 0 <= i < events.len() implies #[trigger] event_at(
        event_bytes(events),
        i,
    ) == events[i] by {
        let event = events[i];
        assert(event_words(event)[0] == words[5 * i + 0]);
        assert(event_words(event)[1] == words[5 * i + 1]);
        assert(event_words(event)[2] == words[5 * i + 2]);
        assert(event_words(event)[3] == words[5 * i + 3]);
        assert(event_words(event)[4] == words[5 * i + 4]);
        assert(word_at(word_bytes(words), 5 * i) == words[5 * i]);
        assert(word_at(word_bytes(words), 5 * i + 1) == words[5 * i + 1]);
        assert(word_at(word_bytes(words), 5 * i + 2) == words[5 * i + 2]);
        assert(word_at(word_bytes(words), 5 * i + 3) == words[5 * i + 3]);
        assert(word_at(word_bytes(words), 5 * i + 4) == words[5 * i + 4]);
        lemma_number_of_word(event.exch_ts);
        lemma_number_of_word(event.local_ts);
        lemma_number_of_word(event.px);
        lemma_number_of_word(event.qty);
    }
}

/// The bytes of stored events, as they stand behind the header of an array.
pub fn encode_events(events: &Vec<StoredEvent>) -> (r: Vec<u8>)
    ensures
        r@ == event_bytes(events@),
        r@.len() == 40 * events@.len(),
{
    let mut bytes: Vec<u8> = Vec::new();
    let mut i: usize = 0;
    assert(events@.take(0) =~= Seq::empty());
    while i < events.len()
        invariant
            i <= events@.len(),
            bytes@ == event_bytes(events@.take(i as int)),
        decreases events@.len() - i,
    {
        let event: StoredEvent = events[i];
        let ghost front = all_event_words(events@.take(i as int));
        proof {
            let w = event_words(event);
            assert(events@.take(i + 1).drop_last() =~= events@.take(i as int));
            assert(events@.take(i + 1).last() == event);
            assert((front + w).drop_last().drop_last().drop_last().drop_last().drop_last()
                =~= front);
            assert((front + w).drop_last().drop_last().drop_last().drop_last() =~= front.push(
                w[0],
            ));
            assert((front + w).drop_last().drop_last().drop_last() =~= front.push(w[0]).push(w[1]));
            assert((front + w).drop_last().drop_last() =~= front.push(w[0]).push(w[1]).push(w[2]));
            assert((front + w).drop_last() =~= front.push(w[0]).push(w[1]).push(w[2]).push(w[3]));
            lemma_word_pushed(front, w[0]);
            lemma_word_pushed(front.push(w[0]), w[1]);
            lemma_word_pushed(front.push(w[0]).push(w[1]), w[2]);
            lemma_word_pushed(front.push(w[0]).push(w[1]).push(w[2]), w[3]);
            lemma_word_pushed(front.push(w[0]).push(w[1]).push(w[2]).push(w[3]), w[4]);
            assert(front + w =~= front.push(w[0]).push(w[1]).push(w[2]).push(w[3]).push(w[4]));
        }
        append_word(&mut bytes, event.ev);
        append_word(&mut bytes, to_word(event.exch_ts));
        append_word(&mut bytes, to_word(event.local_ts));
        append_word(&mut bytes, to_word(event.px));
        append_word(&mut bytes, to_word(event.qty));
        i = i + 1;
    }
    assert(events@.take(i as int) =~= events@);
    proof {
        stored_events_are_read_back(events@);
    }
    bytes
}

/// A further word adds its bytes.
proof fn lemma_word_pushed(words: Seq<u64>, word: u64)
    ensures
        word_bytes(words.push(word)) == word_bytes(words) + spec_u64_to_le_bytes(word),
{
    assert(words.push(word).drop_last() =~= words);
}

/// The two's complement of a number.
#[verifier::truncate]
fn to_word(n: i64) -> (r: u64)
    ensures
        r == word_of(n),
{
    n as u64
}

/// The number of a two's complement.
#[verifier::truncate]
fn to_number(word: u64) -> (r: i64)
    ensures
        r == number_of(word),
{
    word as i64
}

/// What the header of an array says.
#[derive(Debug)]
pub struct ArrayHeader {
    /// The number of bytes of the header.
    pub size: u64,
    /// The lengths of the dimensions.
    pub shape: Vec<u64>,
    /// The type of the rows.
    pub dtype: String,
}

/// What the header of an array says: its own number of bytes, the lengths of the dimensions, and the
/// type of the rows.
pub struct HeaderView {
    /// The number of bytes of the header.
    pub size: u64,
    /// The lengths of the dimensions.
    pub shape: Seq<u64>,
    /// The type of the rows.
    pub dtype: Seq<char>,
}

impl View for ArrayHeader {
    type V = HeaderView;

    open spec fn view(&self) -> HeaderView {
        HeaderView { size: self.size, shape: self.shape@, dtype: self.dtype@ }
    }
}

/// Why the rows of an array cannot be read, where they cannot. The array must have one dimension,
/// rows of the type that is expected, as many of them as it says, and nothing behind them.
pub open spec fn array_fault(
    header: HeaderView,
    expected: Seq<char>,
    row_size: nat,
    payload: nat,
    entry_size: u64,
) -> Option<FormatFault> {
    let shape = header.shape;
    let body = shape[0] * row_size;
    if shape.len() != 1 {
        Some(FormatFault::NotOneDimensional)
    } else if header.dtype != expected {
        Some(FormatFault::DtypeMismatch { expected, found: header.dtype })
    } else if body > payload {
        Some(FormatFault::Truncated)
    } else if header.size + body > u64::MAX {
        Some(FormatFault::SizeOverflow)
    } else if header.size + body != entry_size {
        Some(
            FormatFault::LengthMismatch {
                consumed: (header.size + body) as u64,
                size: entry_size,
            },
        )
    } else {
        None
    }
}

/// The number of rows of an array, which can be read.
fn check_array(
    header: &ArrayHeader,
    expected: &str,
    row_size: usize,
    payload: usize,
    entry_size: u64,
) -> (r: Result<usize, FormatError>)
    requires
        row_size > 0,
    ensures
        match array_fault(
            header@,
            expected@,
            row_size as nat,
            payload as nat,
            entry_size,
        ) {
            Some(fault) => r is Err && r->Err_0@ == fault,
            None => r is Ok && r->Ok_0 == header.shape@[0] && r->Ok_0 * row_size <= payload,
        },
{
    if header.shape.len() != 1 {
        return Err(FormatError::NotOneDimensional);
    }
    if !is_text(&header.dtype, expected) {
        return Err(
            FormatError::DtypeMismatch {
                expected: expected.to_owned(),
                found: header.dtype.as_str().to_owned(),
            },
        );
    }
    let rows: u64 = header.shape[0];
    let most: u64 = (payload / row_size) as u64;
    proof {
        let p = payload as int;
        let q = row_size as int;
        vstd::arithmetic::div_mod::lemma_fundamental_div_mod(p, q);
        vstd::arithmetic::div_mod::lemma_mod_bound(p, q);
        assert(rows > p / q ==> rows * q > p) by (nonlinear_arith)
            requires
                q > 0,
                p == q * (p / q) + p % q,
                0 <= p % q < q,
        ;
        assert(rows <= p / q ==> rows * q <= p) by (nonlinear_arith)
            requires
                q > 0,
                p == q * (p / q) + p % q,
                0 <= p % q,
        ;
    }
    if rows > most {
        return Err(FormatError::Truncated);
    }
    let body: usize = rows as usize * row_size;
    match count_read(header.size, body) {
        Err(error) => Err(error),
        Ok(consumed) => if consumed == entry_size {
            Ok(rows as usize)
        } else {
            Err(FormatError::LengthMismatch { consumed, size: entry_size })
        },
    }
}

/// Counts bytes that were read.
pub fn count_read(counted: u64, read: usize) -> (r: Result<u64, FormatError>)
    ensures
        if counted + read > u64::MAX {
            r is Err && r->Err_0@ == FormatFault::SizeOverflow
        } else {
            r is Ok && r->Ok_0 == counted + read
        },
{
    match counted.checked_add(read as u64) {
        Some(total) => Ok(total),
        None => Err(FormatError::SizeOverflow),
    }
}

/// Reads the stored events of an array, whose header was read already. `expected` is the type that
/// the rows must have, in the form in which headers give it.
pub fn stored_event_rows(
    header: &ArrayHeader,
    expected: &str,
    payload: &[u8],
    entry_size: u64,
) -> (r: Result<Vec<StoredEvent>, FormatError>)
    ensures
        match array_fault(header@, expected@, 40, payload@.len(), entry_size) {
            Some(fault) => r is Err && r->Err_0@ == fault,
            None => r is Ok && r->Ok_0@ == Seq::new(
                header.shape@[0] as nat,
                |i: int| event_at(payload@, i),
            ),
        },
{
    let len: usize = payload.len();
    let rows: usize = match check_array(header, expected, 40, len, entry_size) {
        Ok(rows) => rows,
        Err(error) => {
            return Err(error);
        },
    };
    let mut events: Vec<StoredEvent> = Vec::new();
    let mut i: usize = 0;
    while i < rows
        invariant
            i <= rows,
            rows * 40 <= payload@.len() <= usize::MAX,
            events@ =~= Seq::new(i as nat, |k: int| event_at(payload@, k)),
        decreases rows - i,
    {
        events.push(
            StoredEvent {
                ev: read_word(payload, 5 * i),
                exch_ts: to_number(read_word(payload, 5 * i + 1)),
                local_ts: to_number(read_word(payload, 5 * i + 2)),
                px: to_number(read_word(payload, 5 * i + 3)),
                qty: to_number(read_word(payload, 5 * i + 4)),
            },
        );
        i = i + 1;
    }
    Ok(events)
}

/// The order latency at a place among bytes.
pub open spec fn latency_at(bytes: Seq<u8>, i: int) -> OrderLatencyRow {
    OrderLatencyRow {
        req_ts: number_of(word_at(bytes, 3 * i)),
        exch_ts: number_of(word_at(bytes, 3 * i + 1)),
        resp_ts: number_of(word_at(bytes, 3 * i + 2)),
    }
}

/// Reads the order latencies of an array, whose header was read already.
pub fn order_latency_rows(
    header: &ArrayHeader,
    expected: &str,
    payload: &[u8],
    entry_size: u64,
) -> (r: Result<Vec<OrderLatencyRow>, FormatError>)
    ensures
        match array_fault(header@, expected@, 24, payload@.len(), entry_size) {
            Some(fault) => r is Err && r->Err_0@ == fault,
            None => r is Ok && r->Ok_0@ == Seq::new(
                header.shape@[0] as nat,
                |i: int| latency_at(payload@, i),
            ),
        },
{
    let len: usize = payload.len();
    let rows: usize = match check_array(header, expected, 24, len, entry_size) {
        Ok(rows) => rows,
        Err(error) => {
            return Err(error);
        },
    };
    let mut latencies: Vec<OrderLatencyRow> = Vec::new();
    let mut i: usize = 0;
    while i < rows
        invariant
            i <= rows,
            rows * 24 <= payload@.len() <= usize::MAX,
            latencies@ =~= Seq::new(i as nat, |k: int| latency_at(payload@, k)),
        decreases rows - i,
    {
        latencies.push(
            OrderLatencyRow {
                req_ts: to_number(read_word(payload, 3 * i)),
                exch_ts: to_number(read_word(payload, 3 * i + 1)),
                resp_ts: to_number(read_word(payload, 3 * i + 2)),
            },
        );
        i = i + 1;
    }
    Ok(latencies)
}

/// The metadata at a place among bytes.
pub open spec fn metadata_at(bytes: Seq<u8>, i: int) -> MarketDataMetadata {
    MarketDataMetadata {
        price_scale: spec_u32_from_le_bytes(bytes.subrange(8 * i, 8 * i + 4)),
        size_scale: spec_u32_from_le_bytes(bytes.subrange(8 * i + 4, 8 * i + 8)),
    }
}

/// The bytes of metadata, as they stand behind the header of an array.
pub fn encode_metadata(metadata: &MarketDataMetadata) -> (r: Vec<u8>)
    ensures
        r@ == spec_u32_to_le_bytes(metadata.price_scale) + spec_u32_to_le_bytes(
            metadata.size_scale,
        ),
        r@.len() == 8,
        metadata_at(r@, 0) == *metadata,
{
    let mut bytes: Vec<u8> = u32_to_le_bytes(metadata.price_scale);
    let mut size: Vec<u8> = u32_to_le_bytes(metadata.size_scale);
    bytes.append(&mut size);
    proof {
        lemma_auto_spec_u32_to_from_le_bytes();
        assert(bytes@.subrange(0, 4) =~= spec_u32_to_le_bytes(metadata.price_scale));
        assert(bytes@.subrange(4, 8) =~= spec_u32_to_le_bytes(metadata.size_scale));
    }
    bytes
}

/// Reads the metadata of an array, whose header was read already.
pub fn metadata_rows(
    header: &ArrayHeader,
    expected: &str,
    payload: &[u8],
    entry_size: u64,
) -> (r: Result<Vec<MarketDataMetadata>, FormatError>)
    ensures
        match array_fault(header@, expected@, 8, payload@.len(), entry_size) {
            Some(fault) => r is Err && r->Err_0@ == fault,
            None => r is Ok && r->Ok_0@ == Seq::new(
                header.shape@[0] as nat,
                |i: int| metadata_at(payload@, i),
            ),
        },
{
    let len: usize = payload.len();
    let rows: usize = match check_array(header, expected, 8, len, entry_size) {
        Ok(rows) => rows,
        Err(error) => {
            return Err(error);
        },
    };
    let mut metadata: Vec<MarketDataMetadata> = Vec::new();
    let mut i: usize = 0;
    while i < rows
        invariant
            i <= rows,
            rows * 8 <= payload@.len() <= usize::MAX,
            metadata@ =~= Seq::new(i as nat, |k: int| metadata_at(payload@, k)),
        decreases rows - i,
    {
        metadata.push(
            MarketDataMetadata {
                price_scale: u32_from_le_bytes(
                    slice_subrange(payload, 8 * i, 8 * i + 4),
                ),
                size_scale: u32_from_le_bytes(
                    slice_subrange(payload, 8 * i + 4, 8 * i + 8),
                ),
            },
        );
        i = i + 1;
    }
    Ok(metadata)
}

/// Checks that metadata is one row, and that of the files that can be read.
pub fn check_metadata(metadata: &Vec<MarketDataMetadata>) -> (r: Result<(), FormatError>)
    ensures
        if metadata@.len() == 1 && metadata@[0].is_current() {
            r is Ok
        } else {
            r is Err && r->Err_0@ == FormatFault::UnsupportedScales
        },
{
    if metadata.len() == 1 && metadata[0] == MarketDataMetadata::current() {
        Ok(())
    } else {
        Err(FormatError::UnsupportedScales)
    }
}

/// The event that a stored event stands for.
pub open spec fn decoded(event: StoredEvent) -> Event {
    Event {
        ev: event.ev,
        exch_ts: event.exch_ts,
        local_ts: event.local_ts,
        px: Decimal::of(event.px as i128, DATA_SCALE),
        qty: Decimal::of(event.qty as i128, DATA_SCALE),
    }
}

/// The events that stored events stand for.
pub fn decode_events(events: &Vec<StoredEvent>) -> (r: Vec<Event>)
    ensures
        r@ == Seq::new(events@.len(), |i: int| decoded(events@[i])),
        forall|i: int|
            0 <= i < events@.len() ==> (#[trigger] r@[i]).px@ == value_of(
                events@[i].px as int,
                DATA_SCALE as int,
            ) && r@[i].qty@ == value_of(events@[i].qty as int, DATA_SCALE as int),
{
    let mut r: Vec<Event> = Vec::new();
    let mut i: usize = 0;
    while i < events.len()
        invariant
            i <= events@.len(),
            r@ =~= Seq::new(i as nat, |k: int| decoded(events@[k])),
            forall|k: int|
                0 <= k < i ==> (#[trigger] r@[k]).px@ == value_of(
                    events@[k].px as int,
                    DATA_SCALE as int,
                ) && r@[k].qty@ == value_of(events@[k].qty as int, DATA_SCALE as int),
        decreases events@.len() - i,
    {
        let event: StoredEvent = events[i];
        r.push(
            Event {
                ev: event.ev,
                exch_ts: event.exch_ts,
                local_ts: event.local_ts,
                px: decode_fixed(event.px),
                qty: decode_fixed(event.qty),
            },
        );
        i = i + 1;
    }
    r
}

/// Decoding preserves the lowest unit: different stored numbers stand for different values.
pub proof fn decoding_preserves_the_lowest_unit(a: i64, b: i64)
    requires
        value_of(a as int, DATA_SCALE as int) == value_of(b as int, DATA_SCALE as int),
    ensures
        a == b,
{
    let unit = pow10(crate::decimal::MAX_SCALE as int - DATA_SCALE);
    lemma_pow10_positive(crate::decimal::MAX_SCALE as int - DATA_SCALE);
    assert(a * unit == b * unit ==> a == b) by (nonlinear_arith)
        requires
            unit > 0,
    ;
}

/// Where the fields of rows stand among bytes, each as a number of eight bytes with the lowest first:
/// the flags, the exchange time, the local time, the price and the quantity of an event, and the
/// times of the request, of the exchange and of the response of a latency. The scales of prices and
/// sizes have four bytes each.
#[verifier::truncate]
pub proof fn fields_stand_at_their_places(bytes: Seq<u8>, i: int)
    ensures
        event_at(bytes, i).ev == spec_u64_from_le_bytes(bytes.subrange(40 * i, 40 * i + 8)),
        event_at(bytes, i).exch_ts == spec_u64_from_le_bytes(
            bytes.subrange(40 * i + 8, 40 * i + 16),
        ) as i64,
        event_at(bytes, i).local_ts == spec_u64_from_le_bytes(
            bytes.subrange(40 * i + 16, 40 * i + 24),
        ) as i64,
        event_at(bytes, i).px == spec_u64_from_le_bytes(
            bytes.subrange(40 * i + 24, 40 * i + 32),
        ) as i64,
        event_at(bytes, i).qty == spec_u64_from_le_bytes(
            bytes.subrange(40 * i + 32, 40 * i + 40),
        ) as i64,
        latency_at(bytes, i).req_ts == spec_u64_from_le_bytes(
            bytes.subrange(24 * i, 24 * i + 8),
        ) as i64,
        latency_at(bytes, i).exch_ts == spec_u64_from_le_bytes(
            bytes.subrange(24 * i + 8, 24 * i + 16),
        ) as i64,
        latency_at(bytes, i).resp_ts == spec_u64_from_le_bytes(
            bytes.subrange(24 * i + 16, 24 * i + 24),
        ) as i64,
        metadata_at(bytes, i).price_scale == spec_u32_from_le_bytes(
            bytes.subrange(8 * i, 8 * i + 4),
        ),
        metadata_at(bytes, i).size_scale == spec_u32_from_le_bytes(
            bytes.subrange(8 * i + 4, 8 * i + 8),
        ),
{
}

/// A stored price or quantity counts units of a hundred-millionth; all else of an event is stored as
/// it is. Files at another scale are not read.
pub proof fn stored_numbers_count_hundred_millionths(
    event: StoredEvent,
    metadata: MarketDataMetadata,
)
    ensures
        decoded(event).ev == event.ev,
        decoded(event).exch_ts == event.exch_ts,
        decoded(event).local_ts == event.local_ts,
        decoded(event).px@ == event.px * pow10(20),
        decoded(event).qty@ == event.qty * pow10(20),
        metadata.is_current() <==> metadata.price_scale == 8 && metadata.size_scale == 8,
{
    a_decimal_is_its_parts(decoded(event).px, event.px as i128, DATA_SCALE);
    a_decimal_is_its_parts(decoded(event).qty, event.qty as i128, DATA_SCALE);
}

/// Which arrays are read: those of one dimension, with rows of the type that is expected, whose
/// header and rows take just the bytes that the entry has. Another shape is reported before another
/// type, and that before missing bytes.
pub proof fn arrays_have_just_their_rows(
    header: HeaderView,
    expected: Seq<char>,
    row_size: nat,
    payload: nat,
    entry_size: u64,
)
    ensures
        ({
            let fault = array_fault(header, expected, row_size, payload, entry_size);
            let body = header.shape[0] * row_size;
            &&& fault is None <==> header.shape.len() == 1 && header.dtype == expected && body
                <= payload && header.size + body == entry_size
            &&& header.shape.len() != 1 ==> fault == Some(FormatFault::NotOneDimensional)
            &&& header.shape.len() == 1 && header.dtype != expected ==> fault == Some(
                FormatFault::DtypeMismatch { expected, found: header.dtype },
            )
            &&& header.shape.len() == 1 && header.dtype == expected && body > payload ==> fault
                == Some(FormatFault::Truncated)
        }),
{
}

} // verus!
