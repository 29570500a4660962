//! How long orders and responses are under way.
use std::sync::Arc;

use vstd::prelude::*;

use crate::data::reader::chunk_taken;
use crate::data::reader::prepared;
use crate::data::reader::source_views;
use crate::data::reader::Cache;
use crate::data::reader::CacheModel;
use crate::data::reader::DataSource;
use crate::data::reader::LoadFault;
use crate::data::reader::Preprocessor;
use crate::data::reader::Reader;
use crate::data::reader::ReaderBuilder;
use crate::data::reader::ReaderError;
use crate::data::reader::ReaderFault;
use crate::data::reader::SourceModel;
use crate::data::reader::Unchanged;

verus! {

/// Provides order entry and response latencies.
///
/// A model that is not verified leaves open what its answers are.
pub trait LatencyModel<Q: View, R: View>: Sized {
    /// The latency of a request.
    open spec fn entry_latency(&self, timestamp: i64, request: Q::V) -> i64 {
        arbitrary()
    }

    /// The model after it was asked for the latency of a request.
    open spec fn after_entry(&self, timestamp: i64, request: Q::V) -> Self {
        arbitrary()
    }

    /// The latency of a response.
    open spec fn response_latency(&self, timestamp: i64, update: R::V) -> i64 {
        arbitrary()
    }

    /// The model after it was asked for the latency of a response.
    open spec fn after_response(&self, timestamp: i64, update: R::V) -> Self {
        arbitrary()
    }

    /// Returns the order entry latency for the given timestamp and request.
    fn entry(&mut self, timestamp: i64, request: &Q) -> (r: i64)
        ensures
            r == old(self).entry_latency(timestamp, request@),
            *final(self) == old(self).after_entry(timestamp, request@),
    ;

    /// Returns the order response latency for the given timestamp and update.
    fn response(&mut self, timestamp: i64, update: &R) -> (r: i64)
        ensures
            r == old(self).response_latency(timestamp, update@),
            *final(self) == old(self).after_response(timestamp, update@),
    ;
}

/// Provides constant order latency.
#[derive(Clone, Copy, Debug)]
pub struct ConstantLatency {
    entry_latency: i64,
    response_latency: i64,
}

impl ConstantLatency {
    /// The latency of requests.
    pub closed spec fn entry_part(&self) -> i64 {
        self.entry_latency
    }

    /// The latency of responses.
    pub closed spec fn response_part(&self) -> i64 {
        self.response_latency
    }

    /// Constructs an instance of `ConstantLatency`.
    ///
    /// `entry_latency` and `response_latency` should match the time unit of the data's timestamps.
    /// Using nanoseconds across all datasets is recommended.
    pub fn new(entry_latency: i64, response_latency: i64) -> (r: ConstantLatency)
        requires
            entry_latency >= 0,
            response_latency >= 0,
        ensures
            r.entry_part() == entry_latency,
            r.response_part() == response_latency,
    {
        ConstantLatency { entry_latency, response_latency }
    }
}

impl<Q: View, R: View> LatencyModel<Q, R> for ConstantLatency {
    open spec fn entry_latency(&self, timestamp: i64, request: Q::V) -> i64 {
        self.entry_part()
    }

    open spec fn after_entry(&self, timestamp: i64, request: Q::V) -> ConstantLatency {
        *self
    }

    open spec fn response_latency(&self, timestamp: i64, update: R::V) -> i64 {
        self.response_part()
    }

    open spec fn after_response(&self, timestamp: i64, update: R::V) -> ConstantLatency {
        *self
    }

    fn entry(&mut self, timestamp: i64, request: &Q) -> (r: i64) {
        self.entry_latency
    }

    fn response(&mut self, timestamp: i64, update: &R) -> (r: i64) {
        self.response_latency
    }
}

/// The historical order latency data
#[derive(Clone, Copy, Debug, PartialEq, Eq, Structural)]
pub struct OrderLatencyRow {
    /// Timestamp at which the request occurs.
    pub req_ts: i64,
    /// Timestamp at which the exchange processes the request.
    pub exch_ts: i64,
    /// Timestamp at which the response is received.
    pub resp_ts: i64,
}

/// A row whose timestamps at and behind the exchange are moved by an offset and its double.
pub open spec fn row_moved(row: OrderLatencyRow, latency_offset: i64) -> Result<
    OrderLatencyRow,
    LoadFault,
> {
    let exch_ts = row.exch_ts + latency_offset;
    let resp_ts = row.resp_ts + 2 * latency_offset;
    if exch_ts < i64::MIN || exch_ts > i64::MAX {
        Err(LoadFault::ExchangeTimestampOverflow)
    } else if resp_ts < i64::MIN || resp_ts > i64::MAX {
        Err(LoadFault::ResponseTimestampOverflow)
    } else {
        Ok(OrderLatencyRow { req_ts: row.req_ts, exch_ts: exch_ts as i64, resp_ts: resp_ts as i64 })
    }
}

/// Rows whose timestamps at and behind the exchange are moved by an offset and its double.
pub open spec fn rows_moved(rows: Seq<OrderLatencyRow>, latency_offset: i64) -> Result<
    Seq<OrderLatencyRow>,
    LoadFault,
>
    decreases rows.len(),
{
    if 2 * latency_offset < i64::MIN || 2 * latency_offset > i64::MAX {
        Err(LoadFault::LatencyOffsetOverflow)
    } else if rows.len() == 0 {
        Ok(Seq::empty())
    } else {
        match rows_moved(rows.drop_last(), latency_offset) {
            Err(fault) => Err(fault),
            Ok(before) => match row_moved(rows.last(), latency_offset) {
                Err(fault) => Err(fault),
                Ok(row) => Ok(before.push(row)),
            },
        }
    }
}

/// A fault among the first rows stays the first one.
proof fn lemma_rows_fault(rows: Seq<OrderLatencyRow>, latency_offset: i64, k: int)
    requires
        0 <= k <= rows.len(),
    ensures
        rows_moved(rows.take(k), latency_offset) matches Err(fault) ==> rows_moved(
            rows,
            latency_offset,
        ) == Err::<Seq<OrderLatencyRow>, LoadFault>(fault),
    decreases rows.len(),
{
    if k == rows.len() {
        assert(rows.take(k) =~= rows);
    } else {
        assert(rows.drop_last().take(k) =~= rows.take(k));
        lemma_rows_fault(rows.drop_last(), latency_offset, k);
    }
}

/// The row at which moving stops: its exchange timestamp is moved already, where it can be.
pub open spec fn row_left(row: OrderLatencyRow, latency_offset: i64) -> OrderLatencyRow {
    let exch_ts = row.exch_ts + latency_offset;
    if exch_ts < i64::MIN || exch_ts > i64::MAX {
        row
    } else {
        OrderLatencyRow { exch_ts: exch_ts as i64, ..row }
    }
}

/// Whether moving stopped at a row with a fault: the rows in front of it are moved, and those behind
/// it are as they were.
pub open spec fn stopped_at(
    before: Seq<OrderLatencyRow>,
    latency_offset: i64,
    after: Seq<OrderLatencyRow>,
    fault: LoadFault,
    k: int,
) -> bool {
    &&& 0 <= k < before.len()
    &&& rows_moved(before.take(k), latency_offset) == Ok::<Seq<OrderLatencyRow>, LoadFault>(
        after.take(k),
    )
    &&& row_moved(before[k], latency_offset) == Err::<OrderLatencyRow, LoadFault>(fault)
    &&& after[k] == row_left(before[k], latency_offset)
    &&& after.skip(k + 1) == before.skip(k + 1)
}

/// Makes the entry and the response latency of every row longer by an offset. There is an error
/// where a timestamp cannot be held; the rows behind it stay as they are.
pub fn adjust_order_latency(data: &mut Vec<OrderLatencyRow>, latency_offset: i64) -> (r: Result<
    (),
    LoadFault,
>)
    ensures
        final(data)@.len() == old(data)@.len(),
        match rows_moved(old(data)@, latency_offset) {
            Ok(rows) => r is Ok && final(data)@ == rows,
            Err(fault) => r == Err::<(), LoadFault>(fault) && if fault
                == LoadFault::LatencyOffsetOverflow {
                final(data)@ == old(data)@
            } else {
                exists|k: int| #[trigger]
                    stopped_at(old(data)@, latency_offset, final(data)@, fault, k)
            },
        },
{
    let ghost all = data@;
    proof {
        assert(all.take(0) =~= Seq::empty());
        lemma_rows_fault(all, latency_offset, 0);
    }
    let response_offset: i64 = match latency_offset.checked_mul(2) {
        Some(offset) => offset,
        None => {
            return Err(LoadFault::LatencyOffsetOverflow);
        },
    };
    let mut i: usize = 0;
    while i < data.len()
        invariant
            all == old(data)@,
            data@.len() == all.len(),
            i <= all.len(),
            response_offset == 2 * latency_offset,
            rows_moved(all.take(i as int), latency_offset) is Ok,
            rows_moved(all.take(i as int), latency_offset)->Ok_0.len() == i,
            data@ =~= rows_moved(all.take(i as int), latency_offset)->Ok_0 + all.skip(i as int),
        decreases all.len() - i,
    {
        proof {
            assert(data@[i as int] == all[i as int]);
            assert(all.take(i + 1).drop_last() =~= all.take(i as int));
            assert(all.take(i + 1).last() == all[i as int]);
            lemma_rows_fault(all, latency_offset, i + 1);
        }
        let mut row: OrderLatencyRow = data[i];
        match row.exch_ts.checked_add(latency_offset) {
            Some(exch_ts) => {
                row.exch_ts = exch_ts;
            },
            None => {
                proof {
                    let fault = LoadFault::ExchangeTimestampOverflow;
                    assert(data@.take(i as int) =~= rows_moved(
                        all.take(i as int),
                        latency_offset,
                    )->Ok_0);
                    assert(data@.skip(i + 1) =~= all.skip(i + 1));
                    assert(stopped_at(all, latency_offset, data@, fault, i as int));
                }
                return Err(LoadFault::ExchangeTimestampOverflow);
            },
        }
        data.set(i, row);
        match row.resp_ts.checked_add(response_offset) {
            Some(resp_ts) => {
                row.resp_ts = resp_ts;
            },
            None => {
                proof {
                    let fault = LoadFault::ResponseTimestampOverflow;
                    assert(data@.take(i as int) =~= rows_moved(
                        all.take(i as int),
                        latency_offset,
                    )->Ok_0);
                    assert(data@.skip(i + 1) =~= all.skip(i + 1));
                    assert(stopped_at(all, latency_offset, data@, fault, i as int));
                }
                return Err(LoadFault::ResponseTimestampOverflow);
            },
        }
        data.set(i, row);
        i = i + 1;
    }
    assert(all.take(i as int) =~= all);
    assert(all.skip(i as int) =~= Seq::empty());
    Ok(())
}

/// Makes the latencies of rows longer.
#[derive(Clone, Copy, Debug)]
pub struct LatencyOffset {
    /// By how much.
    pub latency_offset: i64,
}

impl Preprocessor<OrderLatencyRow> for LatencyOffset {
    open spec fn processed(&self, rows: Seq<OrderLatencyRow>) -> Result<
        Seq<OrderLatencyRow>,
        LoadFault,
    > {
        rows_moved(rows, self.latency_offset)
    }

    fn changes(&self) -> (r: bool) {
        proof {
            assert forall|rows: Seq<OrderLatencyRow>|
                self.latency_offset == 0 implies #[trigger] self.processed(rows) == Ok::<
                Seq<OrderLatencyRow>,
                LoadFault,
            >(rows) by {
                lemma_rows_stay(rows);
            }
        }
        self.latency_offset != 0
    }

    fn process(&self, rows: Vec<OrderLatencyRow>) -> (r: Result<Vec<OrderLatencyRow>, LoadFault>) {
        let mut rows: Vec<OrderLatencyRow> = rows;
        match adjust_order_latency(&mut rows, self.latency_offset) {
            Ok(()) => Ok(rows),
            Err(fault) => Err(fault),
        }
    }
}

/// An offset of zero moves nothing.
proof fn lemma_rows_stay(rows: Seq<OrderLatencyRow>)
    ensures
        rows_moved(rows, 0) == Ok::<Seq<OrderLatencyRow>, LoadFault>(rows),
    decreases rows.len(),
{
    if rows.len() == 0 {
        assert(rows =~= Seq::empty());
    } else {
        lemma_rows_stay(rows.drop_last());
        assert(rows.drop_last().push(rows.last()) =~= rows);
    }
}

/// Moving makes the entry and the response latency of every row longer by the offset.
pub proof fn moving_lengthens_both_latencies(
    rows: Seq<OrderLatencyRow>,
    latency_offset: i64,
    i: int,
)
    requires
        0 <= i < rows.len(),
    ensures
        rows_moved(rows, latency_offset) matches Ok(after) ==> {
            &&& after.len() == rows.len()
            &&& after[i].req_ts == rows[i].req_ts
            &&& after[i].exch_ts - after[i].req_ts == rows[i].exch_ts - rows[i].req_ts
                + latency_offset
            &&& after[i].resp_ts - after[i].exch_ts == rows[i].resp_ts - rows[i].exch_ts
                + latency_offset
        },
    decreases rows.len(),
{
    lemma_moved_length(rows, latency_offset);
    lemma_moved_length(rows.drop_last(), latency_offset);
    if i < rows.len() - 1 {
        moving_lengthens_both_latencies(rows.drop_last(), latency_offset, i);
        assert(rows.drop_last()[i] == rows[i]);
    }
}

/// Moving keeps the number of rows.
proof fn lemma_moved_length(rows: Seq<OrderLatencyRow>, latency_offset: i64)
    ensures
        rows_moved(rows, latency_offset) matches Ok(after) ==> after.len() == rows.len(),
    decreases rows.len(),
{
    if rows.len() > 0 {
        lemma_moved_length(rows.drop_last(), latency_offset);
    }
}

/// The part of the way of an order.
#[derive(Clone, Copy, Debug, PartialEq, Eq, Structural)]
pub enum Leg {
    /// From the local side to the exchange.
    Entry,
    /// From the exchange to the local side.
    Response,
}

impl Leg {
    /// When a row starts on this part of the way.
    pub open spec fn start(self, row: OrderLatencyRow) -> i64 {
        match self {
            Leg::Entry => row.req_ts,
            Leg::Response => row.exch_ts,
        }
    }

    /// When a row ends on this part of the way.
    pub open spec fn end(self, row: OrderLatencyRow) -> i64 {
        match self {
            Leg::Entry => row.exch_ts,
            Leg::Response => row.resp_ts,
        }
    }

    /// How long a row takes on this part of the way.
    pub open spec fn delay(self, row: OrderLatencyRow) -> Result<i64, LatencyFault> {
        let latency = self.end(row) - self.start(row);
        if row.exch_ts <= 0 {
            Err(LatencyFault::ExchangeTimestampNotPositive)
        } else if latency > i64::MAX {
            Err(LatencyFault::Overflow)
        } else if latency < 0 {
            Err(LatencyFault::Negative)
        } else {
            Ok(latency as i64)
        }
    }

    /// When a row starts on this part of the way.
    fn start_of(&self, row: &OrderLatencyRow) -> (r: i64)
        ensures
            r == self.start(*row),
    {
        match self {
            Leg::Entry => row.req_ts,
            Leg::Response => row.exch_ts,
        }
    }

    /// How long a row takes on this part of the way.
    fn delay_of(&self, row: &OrderLatencyRow) -> (r: Result<i64, LatencyFault>)
        ensures
            r == self.delay(*row),
    {
        if row.exch_ts <= 0 {
            return Err(LatencyFault::ExchangeTimestampNotPositive);
        }
        let (start, end): (i64, i64) = match self {
            Leg::Entry => (row.req_ts, row.exch_ts),
            Leg::Response => (row.exch_ts, row.resp_ts),
        };
        if end < start {
            return Err(LatencyFault::Negative);
        }
        match end.checked_sub(start) {
            Some(latency) => Ok(latency),
            None => Err(LatencyFault::Overflow),
        }
    }
}

/// Why there is no latency.
#[derive(Clone, Copy, Debug, PartialEq, Eq, Structural)]
pub enum LatencyFault {
    /// There is no row.
    NoRows,
    /// The row that was reached is not there any more.
    RowOutOfRange,
    /// The exchange timestamp of a row is not positive.
    ExchangeTimestampNotPositive,
    /// The latency of a row is negative.
    Negative,
    /// The latency of a row cannot be held.
    Overflow,
}

impl LatencyFault {
    /// What went wrong.
    pub open spec fn said(self) -> Seq<char> {
        match self {
            LatencyFault::NoRows => "there is no order latency data"@,
            LatencyFault::RowOutOfRange => "order latency data moved on"@,
            LatencyFault::ExchangeTimestampNotPositive =>
                "exchange timestamps in order latency data must be positive"@,
            LatencyFault::Negative => "order latency must be nonnegative"@,
            LatencyFault::Overflow => "order latency overflow"@,
        }
    }

    /// Says what went wrong.
    pub fn message(&self) -> (r: &'static str)
        ensures
            r@ == self.said(),
    {
        match self {
            LatencyFault::NoRows => "there is no order latency data",
            LatencyFault::RowOutOfRange => "order latency data moved on",
            LatencyFault::ExchangeTimestampNotPositive =>
                "exchange timestamps in order latency data must be positive",
            LatencyFault::Negative => "order latency must be nonnegative",
            LatencyFault::Overflow => "order latency overflow",
        }
    }
}

/// Where a time falls among rows.
pub enum Place {
    /// The row that was reached is not there any more.
    Lost,
    /// At or behind the last row of all.
    Last(OrderLatencyRow),
    /// At or behind this row, and before that one.
    Between(OrderLatencyRow, OrderLatencyRow),
    /// Behind the last of these rows, and not before the first row of the next chunk.
    Beyond,
}

/// Where a time falls among rows, from one of them on, and the row that is reached. `next` holds the
/// rows of the next chunk.
pub open spec fn located(
    leg: Leg,
    rows: Seq<OrderLatencyRow>,
    next: Seq<OrderLatencyRow>,
    from: int,
    timestamp: i64,
) -> (Place, int)
    decreases rows.len() - from,
{
    if from < 0 || from >= rows.len() {
        (Place::Lost, from)
    } else if from + 1 >= rows.len() && next.len() == 0 {
        (Place::Last(rows.last()), from)
    } else {
        let row = rows[from];
        let following = if from + 1 < rows.len() {
            rows[from + 1]
        } else {
            next[0]
        };
        if leg.start(row) <= timestamp < leg.start(following) {
            (Place::Between(row, following), from)
        } else if from + 1 >= rows.len() {
            (Place::Beyond, from)
        } else {
            located(leg, rows, next, from + 1, timestamp)
        }
    }
}

/// Two rows between which a latency is interpolated.
#[derive(Clone, Copy, Debug, PartialEq, Eq, Structural)]
pub struct Interpolation {
    /// The time of the order.
    pub timestamp: i64,
    /// When the row in front starts.
    pub first_timestamp: i64,
    /// How long it takes.
    pub first_latency: i64,
    /// When the row behind starts.
    pub second_timestamp: i64,
    /// How long it takes.
    pub second_latency: i64,
}

/// How a latency is found.
#[derive(Clone, Copy, Debug, PartialEq, Eq, Structural)]
pub enum LatencyStep {
    /// It is this one.
    Latency(i64),
    /// It lies between the latencies of two rows.
    Between(Interpolation),
    /// Further rows have to be fetched first.
    Refill,
}

/// How a latency is found between two rows.
pub open spec fn between(
    leg: Leg,
    row: OrderLatencyRow,
    following: OrderLatencyRow,
    timestamp: i64,
) -> Result<LatencyStep, LatencyFault> {
    match leg.delay(row) {
        Err(fault) => Err(fault),
        Ok(first_latency) => match leg.delay(following) {
            Err(fault) => Err(fault),
            Ok(second_latency) => Ok(
                LatencyStep::Between(
                    Interpolation {
                        timestamp,
                        first_timestamp: leg.start(row),
                        first_latency,
                        second_timestamp: leg.start(following),
                        second_latency,
                    },
                ),
            ),
        },
    }
}

/// A chunk of rows, as far as it is known.
#[derive(Debug)]
pub enum Slot {
    /// It was not fetched yet.
    Unknown,
    /// There is none.
    End,
    /// The rows, with the place of the chunk among the sources.
    Chunk(Arc<Vec<OrderLatencyRow>>, usize),
}

/// A chunk of rows, as far as it is known.
pub enum SlotModel {
    /// It was not fetched yet.
    Unknown,
    /// There is none.
    End,
    /// The rows, with the place of the chunk among the sources.
    Chunk(Seq<OrderLatencyRow>, usize),
}

impl View for Slot {
    type V = SlotModel;

    open spec fn view(&self) -> SlotModel {
        match self {
            Slot::Unknown => SlotModel::Unknown,
            Slot::End => SlotModel::End,
            Slot::Chunk(rows, key) => SlotModel::Chunk(rows@, *key),
        }
    }
}

impl SlotModel {
    /// The rows.
    pub open spec fn rows(self) -> Seq<OrderLatencyRow> {
        match self {
            SlotModel::Chunk(rows, _) => rows,
            _ => Seq::empty(),
        }
    }
}

/// Provides order latency based on actual historical order latency data through interpolation.
///
/// However, if you don't have the actual order latency history, you can generate order latencies
/// artificially based on feed latency or using a custom model such as a regression model, which
/// incorporates factors like feed latency, trading volume, and the number of events.
///
/// Historical order latency data must contain positive exchange timestamps and nonnegative entry
/// and response latencies.
///
/// The model finds the rows that a time falls between. The value between their latencies is left to
/// the caller, and so is loading the rows.
#[derive(Debug)]
pub struct IntpOrderLatency {
    /// The row that was reached for requests.
    pub entry_rn: usize,
    /// The row that was reached for responses.
    pub resp_rn: usize,
    /// The chunks.
    pub reader: Reader<OrderLatencyRow, LatencyOffset>,
    /// The current chunk.
    pub data: Slot,
    /// The chunk behind it.
    pub next_data: Slot,
}

/// What fetching a chunk gives: the cache, the place of the next chunk, and the slot.
pub open spec fn fetched(
    chunks: Seq<SourceModel<OrderLatencyRow>>,
    parallel_load: bool,
    cache: CacheModel<OrderLatencyRow>,
    place: usize,
    slot: SlotModel,
) -> Result<(CacheModel<OrderLatencyRow>, usize, SlotModel), ReaderFault> {
    if slot is Unknown {
        match chunk_taken(chunks, parallel_load, cache, place) {
            Ok((after, Some(rows))) => Ok(
                (after, (place + 1) as usize, SlotModel::Chunk(rows, place)),
            ),
            Ok((after, None)) => Ok((after, place, SlotModel::Unknown)),
            Err(ReaderFault::EndOfData) => Ok((cache, place, SlotModel::End)),
            Err(fault) => Err(fault),
        }
    } else {
        Ok((cache, place, slot))
    }
}

/// What filling both slots gives: the cache, the place of the next chunk, and the slots. The second
/// one is filled once the first one is.
pub open spec fn refilled(
    chunks: Seq<SourceModel<OrderLatencyRow>>,
    parallel_load: bool,
    cache: CacheModel<OrderLatencyRow>,
    place: usize,
    data: SlotModel,
    next_data: SlotModel,
) -> Result<(CacheModel<OrderLatencyRow>, usize, SlotModel, SlotModel), ReaderFault> {
    match fetched(chunks, parallel_load, cache, place, data) {
        Err(fault) => Err(fault),
        Ok((cache, place, data)) => if data is Unknown {
            Ok((cache, place, data, next_data))
        } else {
            match fetched(chunks, parallel_load, cache, place, next_data) {
                Err(fault) => Err(fault),
                Ok((cache, place, next_data)) => Ok((cache, place, data, next_data)),
            }
        },
    }
}

impl IntpOrderLatency {
    /// Constructs an `IntpOrderLatency` with options. Its rows are fetched by
    /// [`IntpOrderLatency::refill`].
    pub fn build(
        data: Vec<DataSource<OrderLatencyRow>>,
        parallel_load: bool,
        latency_offset: i64,
    ) -> (r: Result<IntpOrderLatency, LoadFault>)
        ensures
            match prepared(LatencyOffset { latency_offset }, source_views(data@)) {
                Ok(chunks) => {
                    &&& r is Ok
                    &&& r->Ok_0.reader.chunks() == chunks
                    &&& r->Ok_0.reader.place() == 0
                    &&& r->Ok_0.reader.loads_ahead() == parallel_load
                    &&& r->Ok_0.reader.change() == (LatencyOffset { latency_offset })
                    &&& r->Ok_0.entry_rn == 0
                    &&& r->Ok_0.resp_rn == 0
                    &&& r->Ok_0.data@ == SlotModel::Unknown
                    &&& r->Ok_0.next_data@ == SlotModel::Unknown
                },
                Err(fault) => r is Err && r->Err_0 == fault,
            },
    {
        let builder: ReaderBuilder<OrderLatencyRow, LatencyOffset> = Reader::<
            OrderLatencyRow,
            Unchanged,
        >::builder().preprocess(LatencyOffset { latency_offset }).parallel_load(parallel_load).data(
            data,
        );
        match builder.build() {
            Ok(reader) => Ok(
                IntpOrderLatency {
                    entry_rn: 0,
                    resp_rn: 0,
                    reader,
                    data: Slot::Unknown,
                    next_data: Slot::Unknown,
                },
            ),
            Err(fault) => Err(fault),
        }
    }

    /// Constructs an `IntpOrderLatency` with default options: chunks are loaded ahead.
    pub fn new(data: Vec<DataSource<OrderLatencyRow>>, latency_offset: i64) -> (r: Result<
        IntpOrderLatency,
        LoadFault,
    >)
        ensures
            match prepared(LatencyOffset { latency_offset }, source_views(data@)) {
                Ok(chunks) => {
                    &&& r is Ok
                    &&& r->Ok_0.reader.chunks() == chunks
                    &&& r->Ok_0.reader.place() == 0
                    &&& r->Ok_0.reader.loads_ahead()
                    &&& r->Ok_0.reader.change() == (LatencyOffset { latency_offset })
                    &&& r->Ok_0.entry_rn == 0
                    &&& r->Ok_0.resp_rn == 0
                    &&& r->Ok_0.data@ == SlotModel::Unknown
                    &&& r->Ok_0.next_data@ == SlotModel::Unknown
                },
                Err(fault) => r is Err && r->Err_0 == fault,
            },
    {
        IntpOrderLatency::build(data, true, latency_offset)
    }

    /// Fetches a chunk.
    fn fetch(
        reader: &mut Reader<OrderLatencyRow, LatencyOffset>,
        cache: &mut Cache<OrderLatencyRow>,
        slot: &mut Slot,
    ) -> (r: Result<(), ReaderError>)
        requires
            old(cache).wf(),
        ensures
            final(cache).wf(),
            final(reader).chunks() == old(reader).chunks(),
            final(reader).loads_ahead() == old(reader).loads_ahead(),
            final(reader).change() == old(reader).change(),
            match fetched(
                old(reader).chunks(),
                old(reader).loads_ahead(),
                old(cache)@,
                old(reader).place(),
                old(slot)@,
            ) {
                Ok(after) => r is Ok && final(cache)@ == after.0 && final(reader).place() == after.1
                    && final(slot)@ == after.2,
                Err(fault) => r is Err && r->Err_0@ == fault,
            },
    {
        match slot {
            Slot::Unknown => {},
            _ => {
                return Ok(());
            },
        }
        let key: usize = reader.next_place();
        match reader.next_data(cache) {
            Ok(Some(rows)) => {
                *slot = Slot::Chunk(rows, key);
                Ok(())
            },
            Ok(None) => Ok(()),
            Err(ReaderError::EndOfData) => {
                *slot = Slot::End;
                Ok(())
            },
            Err(error) => Err(error),
        }
    }

    /// Fetches the rows that are missing. Returns whether all of them are there; if not, those that
    /// are in line in the cache have to be loaded first.
    pub fn refill(&mut self, cache: &mut Cache<OrderLatencyRow>) -> (r: Result<bool, ReaderError>)
        requires
            old(cache).wf(),
        ensures
            final(cache).wf(),
            final(self).entry_rn == old(self).entry_rn,
            final(self).resp_rn == old(self).resp_rn,
            final(self).reader.chunks() == old(self).reader.chunks(),
            final(self).reader.loads_ahead() == old(self).reader.loads_ahead(),
            final(self).reader.change() == old(self).reader.change(),
            match refilled(
                old(self).reader.chunks(),
                old(self).reader.loads_ahead(),
                old(cache)@,
                old(self).reader.place(),
                old(self).data@,
                old(self).next_data@,
            ) {
                Ok(after) => {
                    &&& r is Ok
                    &&& r->Ok_0 == (after.2 !is Unknown && after.3 !is Unknown)
                    &&& final(cache)@ == after.0
                    &&& final(self).reader.place() == after.1
                    &&& final(self).data@ == after.2
                    &&& final(self).next_data@ == after.3
                },
                Err(fault) => r is Err && r->Err_0@ == fault,
            },
    {
        match IntpOrderLatency::fetch(&mut self.reader, cache, &mut self.data) {
            Ok(()) => {},
            Err(error) => {
                return Err(error);
            },
        }
        if let Slot::Unknown = &self.data {
            return Ok(false);
        }
        match IntpOrderLatency::fetch(&mut self.reader, cache, &mut self.next_data) {
            Ok(()) => {},
            Err(error) => {
                return Err(error);
            },
        }
        match &self.next_data {
            Slot::Unknown => Ok(false),
            _ => Ok(true),
        }
    }

    /// Where a time falls among the rows, from one of them on, and the row that is reached.
    fn locate(
        leg: Leg,
        rows: &Vec<OrderLatencyRow>,
        following: Option<OrderLatencyRow>,
        from: usize,
        timestamp: i64,
    ) -> (r: (Place, usize))
        ensures
            forall|next: Seq<OrderLatencyRow>|
                (if next.len() == 0 {
                    following is None
                } else {
                    following == Some(next[0])
                }) ==> (r.0, r.1 as int) == #[trigger] located(
                    leg,
                    rows@,
                    next,
                    from as int,
                    timestamp,
                ),
    {
        let mut i: usize = from;
        while i < rows.len()
            invariant
                from <= i,
                i <= rows@.len() || i == from,
                forall|next: Seq<OrderLatencyRow>|
                    (if next.len() == 0 {
                        following is None
                    } else {
                        following == Some(next[0])
                    }) ==> #[trigger] located(leg, rows@, next, from as int, timestamp) == located(
                        leg,
                        rows@,
                        next,
                        i as int,
                        timestamp,
                    ),
            decreases rows@.len() - i,
        {
            let row: OrderLatencyRow = rows[i];
            let next_row: OrderLatencyRow = if i + 1 < rows.len() {
                rows[i + 1]
            } else {
                match following {
                    Some(row) => row,
                    None => {
                        return (Place::Last(rows[rows.len() - 1]), i);
                    },
                }
            };
            if leg.start_of(&row) <= timestamp && timestamp < leg.start_of(&next_row) {
                return (Place::Between(row, next_row), i);
            }
            if i == rows.len() - 1 {
                return (Place::Beyond, i);
            }
            i = i + 1;
        }
        (Place::Lost, i)
    }

    /// How the latency of a request is found that is made at a time.
    pub fn entry(&mut self, cache: &mut Cache<OrderLatencyRow>, timestamp: i64) -> (r: Result<
        LatencyStep,
        LatencyFault,
    >)
        requires
            old(cache).wf(),
        ensures
            final(cache).wf(),
            final(self).resp_rn == old(self).resp_rn,
            stepped(
                Leg::Entry,
                old(self),
                old(cache)@,
                timestamp,
                true,
                final(self),
                final(cache)@,
                final(self).entry_rn,
                old(self).entry_rn,
                r,
            ),
    {
        let reached: usize = self.entry_rn;
        let (step, row): (Result<LatencyStep, LatencyFault>, usize) = self.step(
            Leg::Entry,
            cache,
            timestamp,
            reached,
            true,
        );
        self.entry_rn = row;
        step
    }

    /// How the latency of a request is found that is made at a time, after further rows were
    /// fetched for it.
    pub fn entry_after_refill(&mut self, cache: &mut Cache<OrderLatencyRow>, timestamp: i64) -> (r:
        Result<LatencyStep, LatencyFault>)
        requires
            old(cache).wf(),
        ensures
            final(cache).wf(),
            final(self).resp_rn == old(self).resp_rn,
            stepped(
                Leg::Entry,
                old(self),
                old(cache)@,
                timestamp,
                false,
                final(self),
                final(cache)@,
                final(self).entry_rn,
                old(self).entry_rn,
                r,
            ),
    {
        let reached: usize = self.entry_rn;
        let (step, row): (Result<LatencyStep, LatencyFault>, usize) = self.step(
            Leg::Entry,
            cache,
            timestamp,
            reached,
            false,
        );
        self.entry_rn = row;
        step
    }

    /// How the latency of a response is found that is sent at a time.
    pub fn response(&mut self, cache: &mut Cache<OrderLatencyRow>, timestamp: i64) -> (r: Result<
        LatencyStep,
        LatencyFault,
    >)
        requires
            old(cache).wf(),
        ensures
            final(cache).wf(),
            final(self).entry_rn == old(self).entry_rn,
            stepped(
                Leg::Response,
                old(self),
                old(cache)@,
                timestamp,
                true,
                final(self),
                final(cache)@,
                final(self).resp_rn,
                old(self).resp_rn,
                r,
            ),
    {
        let reached: usize = self.resp_rn;
        let (step, row): (Result<LatencyStep, LatencyFault>, usize) = self.step(
            Leg::Response,
            cache,
            timestamp,
            reached,
            true,
        );
        self.resp_rn = row;
        step
    }

    /// How the latency of a response is found that is sent at a time, after further rows were
    /// fetched for it.
    pub fn response_after_refill(
        &mut self,
        cache: &mut Cache<OrderLatencyRow>,
        timestamp: i64,
    ) -> (r: Result<LatencyStep, LatencyFault>)
        requires
            old(cache).wf(),
        ensures
            final(cache).wf(),
            final(self).entry_rn == old(self).entry_rn,
            stepped(
                Leg::Response,
                old(self),
                old(cache)@,
                timestamp,
                false,
                final(self),
                final(cache)@,
                final(self).resp_rn,
                old(self).resp_rn,
                r,
            ),
    {
        let reached: usize = self.resp_rn;
        let (step, row): (Result<LatencyStep, LatencyFault>, usize) = self.step(
            Leg::Response,
            cache,
            timestamp,
            reached,
            false,
        );
        self.resp_rn = row;
        step
    }

    /// How a latency is found, and the row that is reached.
    fn step(
        &mut self,
        leg: Leg,
        cache: &mut Cache<OrderLatencyRow>,
        timestamp: i64,
        reached: usize,
        from_start: bool,
    ) -> (r: (Result<LatencyStep, LatencyFault>, usize))
        requires
            old(cache).wf(),
        ensures
            final(cache).wf(),
            final(self).entry_rn == old(self).entry_rn,
            final(self).resp_rn == old(self).resp_rn,
            stepped(
                leg,
                old(self),
                old(cache)@,
                timestamp,
                from_start,
                final(self),
                final(cache)@,
                r.1,
                reached,
                r.0,
            ),
    {
        let following: Option<OrderLatencyRow> = match &self.next_data {
            Slot::Unknown => {
                return (Ok(LatencyStep::Refill), reached);
            },
            Slot::End => None,
            Slot::Chunk(rows, _) => if rows.len() > 0 {
                Some(rows[0])
            } else {
                None
            },
        };
        let (place, row, key): (Place, usize, usize) = match &self.data {
            Slot::Unknown => {
                return (Ok(LatencyStep::Refill), reached);
            },
            Slot::End => {
                return (Err(LatencyFault::NoRows), reached);
            },
            Slot::Chunk(rows, key) => {
                if rows.len() == 0 {
                    return (Err(LatencyFault::NoRows), reached);
                }
                if from_start && timestamp < leg.start_of(&rows[0]) {
                    return (
                        match leg.delay_of(&rows[0]) {
                            Ok(latency) => Ok(LatencyStep::Latency(latency)),
                            Err(fault) => Err(fault),
                        },
                        reached,
                    );
                }
                let (place, row): (Place, usize) = IntpOrderLatency::locate(
                    leg,
                    rows,
                    following,
                    reached,
                    timestamp,
                );
                (place, row, *key)
            },
        };
        assert((place, row as int) == located(
            leg,
            old(self).data@.rows(),
            old(self).next_data@.rows(),
            reached as int,
            timestamp,
        ));
        match place {
            Place::Lost => (Err(LatencyFault::RowOutOfRange), row),
            Place::Last(last) => (
                match leg.delay_of(&last) {
                    Ok(latency) => Ok(LatencyStep::Latency(latency)),
                    Err(fault) => Err(fault),
                },
                row,
            ),
            Place::Between(first, second) => {
                let first_latency: i64 = match leg.delay_of(&first) {
                    Ok(latency) => latency,
                    Err(fault) => {
                        return (Err(fault), row);
                    },
                };
                let second_latency: i64 = match leg.delay_of(&second) {
                    Ok(latency) => latency,
                    Err(fault) => {
                        return (Err(fault), row);
                    },
                };
                (
                    Ok(
                        LatencyStep::Between(
                            Interpolation {
                                timestamp,
                                first_timestamp: leg.start_of(&first),
                                first_latency,
                                second_timestamp: leg.start_of(&second),
                                second_latency,
                            },
                        ),
                    ),
                    row,
                )
            },
            Place::Beyond => {
                cache.release(key);
                let mut next: Slot = Slot::Unknown;
                std::mem::swap(&mut next, &mut self.next_data);
                self.data = next;
                (Ok(LatencyStep::Refill), 0)
            },
        }
    }
}

/// Whether a step from one state of the model leads to another: the row that is reached moves
/// forward, and behind the last row of a chunk the next chunk takes its place.
pub open spec fn stepped(
    leg: Leg,
    before: &IntpOrderLatency,
    cache_before: CacheModel<OrderLatencyRow>,
    timestamp: i64,
    from_start: bool,
    after: &IntpOrderLatency,
    cache_after: CacheModel<OrderLatencyRow>,
    row: usize,
    reached: usize,
    step: Result<LatencyStep, LatencyFault>,
) -> bool {
    let rows = before.data@.rows();
    let same = after.data@ == before.data@ && after.next_data@ == before.next_data@ && cache_after
        == cache_before;
    let (place, found) = located(
        leg,
        rows,
        before.next_data@.rows(),
        reached as int,
        timestamp,
    );
    &&& after.reader == before.reader
    &&& if before.next_data@ is Unknown || before.data@ is Unknown {
        same && row == reached && step == Ok::<LatencyStep, LatencyFault>(LatencyStep::Refill)
    } else if rows.len() == 0 {
        same && row == reached && step == Err::<LatencyStep, LatencyFault>(LatencyFault::NoRows)
    } else if from_start && timestamp < leg.start(rows[0]) {
        same && row == reached && step == fixed_latency(leg, rows[0])
    } else {
        match place {
            Place::Lost => same && row == found && step == Err::<LatencyStep, LatencyFault>(
                LatencyFault::RowOutOfRange,
            ),
            Place::Last(last) => same && row == found && step == fixed_latency(leg, last),
            Place::Between(first, second) => same && row == found && step == between(
                leg,
                first,
                second,
                timestamp,
            ),
            Place::Beyond => {
                &&& row == 0
                &&& step == Ok::<LatencyStep, LatencyFault>(LatencyStep::Refill)
                &&& after.data@ == before.next_data@
                &&& after.next_data@ == SlotModel::Unknown
                &&& cache_after == cache_before.released(before.data@->Chunk_1)
            },
        }
    }
}

/// The latency of a row.
pub open spec fn fixed_latency(leg: Leg, row: OrderLatencyRow) -> Result<
    LatencyStep,
    LatencyFault,
> {
    match leg.delay(row) {
        Ok(latency) => Ok(LatencyStep::Latency(latency)),
        Err(fault) => Err(fault),
    }
}

/// Rows between which a latency is interpolated enclose the time, and their latencies are not
/// negative.
pub proof fn interpolation_encloses_the_time(
    leg: Leg,
    rows: Seq<OrderLatencyRow>,
    next: Seq<OrderLatencyRow>,
    from: int,
    timestamp: i64,
)
    ensures
        located(leg, rows, next, from, timestamp).0 matches Place::Between(first, second) ==> (
        between(leg, first, second, timestamp) matches Ok(LatencyStep::Between(found)) ==> {
            &&& found.first_timestamp <= found.timestamp < found.second_timestamp
            &&& found.first_latency >= 0
            &&& found.second_latency >= 0
        }),
    decreases rows.len() - from,
{
    if 0 <= from && from + 1 < rows.len() {
        interpolation_encloses_the_time(leg, rows, next, from + 1, timestamp);
    }
}

/// When a row starts on its way: a request when it is made, a response when the exchange handled the
/// request. How long it takes is counted to when the exchange handled the request, or to when the
/// response is received. A row that was not handled, or that takes a negative time, is faulty.
pub proof fn latencies_are_differences_of_times(row: OrderLatencyRow)
    ensures
        Leg::Entry.start(row) == row.req_ts,
        Leg::Response.start(row) == row.exch_ts,
        Leg::Entry.delay(row) matches Ok(latency) ==> latency == row.exch_ts - row.req_ts,
        Leg::Response.delay(row) matches Ok(latency) ==> latency == row.resp_ts - row.exch_ts,
        Leg::Entry.delay(row) is Ok <==> row.exch_ts > 0 && 0 <= row.exch_ts - row.req_ts
            <= i64::MAX,
        Leg::Response.delay(row) is Ok <==> row.exch_ts > 0 && 0 <= row.resp_ts - row.exch_ts
            <= i64::MAX,
        row.exch_ts <= 0 ==> Leg::Entry.delay(row) == Err::<i64, LatencyFault>(
            LatencyFault::ExchangeTimestampNotPositive,
        ) && Leg::Response.delay(row) == Err::<i64, LatencyFault>(
            LatencyFault::ExchangeTimestampNotPositive,
        ),
        row.exch_ts > 0 && row.exch_ts < row.req_ts && row.exch_ts - row.req_ts >= i64::MIN
            ==> Leg::Entry.delay(row) == Err::<i64, LatencyFault>(LatencyFault::Negative),
        row.exch_ts > 0 && row.resp_ts < row.exch_ts && row.resp_ts - row.exch_ts >= i64::MIN
            ==> Leg::Response.delay(row) == Err::<i64, LatencyFault>(LatencyFault::Negative),
{
}

/// Whether a time falls between a row and the one behind it.
pub open spec fn encloses(
    leg: Leg,
    rows: Seq<OrderLatencyRow>,
    k: int,
    timestamp: i64,
) -> bool {
    leg.start(rows[k]) <= timestamp < leg.start(rows[k + 1])
}

/// The rows that a time falls between are neighbours, the first of them starts at the time or before
/// it and the second behind it, and no earlier pair of neighbours from the row that was reached on
/// does so. Where the time falls between none of them, the last row of all is taken.
pub proof fn times_fall_between_neighbours(
    leg: Leg,
    rows: Seq<OrderLatencyRow>,
    next: Seq<OrderLatencyRow>,
    from: int,
    timestamp: i64,
)
    requires
        0 <= from < rows.len(),
    ensures
        ({
            let all = rows + next;
            let (place, found) = located(leg, rows, next, from, timestamp);
            &&& from <= found < rows.len()
            &&& forall|k: int| from <= k < found ==> !(#[trigger] encloses(leg, all, k, timestamp))
            &&& place matches Place::Between(first, second) ==> {
                &&& found + 1 < all.len()
                &&& first == all[found]
                &&& second == all[found + 1]
                &&& leg.start(first) <= timestamp < leg.start(second)
            }
            &&& place matches Place::Last(row) ==> {
                &&& next.len() == 0
                &&& found == rows.len() - 1
                &&& row == rows[found]
            }
            &&& place is Beyond ==> {
                &&& next.len() > 0
                &&& found == rows.len() - 1
                &&& !encloses(leg, all, found, timestamp)
            }
            &&& !(place is Lost)
        }),
    decreases rows.len() - from,
{
    let all = rows + next;
    assert(all[from] == rows[from]);
    if from + 1 < rows.len() {
        assert(all[from + 1] == rows[from + 1]);
        if !(leg.start(rows[from]) <= timestamp < leg.start(rows[from + 1])) {
            times_fall_between_neighbours(leg, rows, next, from + 1, timestamp);
            let found = located(leg, rows, next, from, timestamp).1;
            assert(!encloses(leg, all, from, timestamp));
            assert forall|k: int| from <= k < found implies !(#[trigger] encloses(
                leg,
                all,
                k,
                timestamp,
            )) by {
                if k > from {
                    assert(from + 1 <= k);
                }
            }
        }
    } else if next.len() > 0 {
        assert(all[from + 1] == next[0]);
    }
}

/// What is interpolated between are the starts of two rows and how long each takes.
pub proof fn interpolation_joins_two_rows(
    leg: Leg,
    row: OrderLatencyRow,
    following: OrderLatencyRow,
    timestamp: i64,
)
    ensures
        between(leg, row, following, timestamp) matches Ok(step) ==> (
        step matches LatencyStep::Between(found) && {
            &&& found.timestamp == timestamp
            &&& found.first_timestamp == leg.start(row)
            &&& found.second_timestamp == leg.start(following)
            &&& leg.delay(row) == Ok::<i64, LatencyFault>(found.first_latency)
            &&& leg.delay(following) == Ok::<i64, LatencyFault>(found.second_latency)
        }),
        between(leg, row, following, timestamp) is Ok <==> leg.delay(row) is Ok && leg.delay(
            following,
        ) is Ok,
{
}

/// A constant latency gives every request the one latency and every response the other, and does not
/// change.
pub proof fn constant_latencies_do_not_change<Q: View, R: View>(
    model: ConstantLatency,
    timestamp: i64,
    request: Q::V,
    update: R::V,
)
    ensures
        LatencyModel::<Q, R>::entry_latency(&model, timestamp, request) == model.entry_part(),
        LatencyModel::<Q, R>::response_latency(&model, timestamp, update) == model.response_part(),
        LatencyModel::<Q, R>::after_entry(&model, timestamp, request) == model,
        LatencyModel::<Q, R>::after_response(&model, timestamp, update) == model,
{
}

/// Rows can be moved exactly where twice the offset can be held and every timestamp that is moved
/// stays within its range.
pub proof fn rows_move_where_their_times_can_be_held(
    rows: Seq<OrderLatencyRow>,
    latency_offset: i64,
)
    ensures
        rows_moved(rows, latency_offset) is Ok <==> {
            &&& i64::MIN <= 2 * latency_offset <= i64::MAX
            &&& forall|i: int|
                0 <= i < rows.len() ==> (#[trigger] rows[i]).exch_ts + latency_offset >= i64::MIN
                    && rows[i].exch_ts + latency_offset <= i64::MAX && rows[i].resp_ts + 2
                    * latency_offset >= i64::MIN && rows[i].resp_ts + 2 * latency_offset
                    <= i64::MAX
        },
        !(i64::MIN <= 2 * latency_offset <= i64::MAX) ==> rows_moved(rows, latency_offset)
            == Err::<Seq<OrderLatencyRow>, LoadFault>(LoadFault::LatencyOffsetOverflow),
    decreases rows.len(),
{
    if rows.len() > 0 {
        let front = rows.drop_last();
        let n = rows.len() - 1;
        rows_move_where_their_times_can_be_held(front, latency_offset);
        assert(rows[n] == rows.last());
        if rows_moved(rows, latency_offset) is Ok {
            assert forall|i: int| 0 <= i < rows.len() implies (#[trigger] rows[i]).exch_ts
                + latency_offset >= i64::MIN && rows[i].exch_ts + latency_offset <= i64::MAX
                && rows[i].resp_ts + 2 * latency_offset >= i64::MIN && rows[i].resp_ts + 2
                * latency_offset <= i64::MAX by {
                if i < n {
                    assert(front[i] == rows[i]);
                }
            }
        }
        if forall|i: int|
            0 <= i < rows.len() ==> (#[trigger] rows[i]).exch_ts + latency_offset >= i64::MIN
                && rows[i].exch_ts + latency_offset <= i64::MAX && rows[i].resp_ts + 2
                * latency_offset >= i64::MIN && rows[i].resp_ts + 2 * latency_offset <= i64::MAX {
            assert forall|i: int| 0 <= i < front.len() implies (#[trigger] front[i]).exch_ts
                + latency_offset >= i64::MIN && front[i].exch_ts + latency_offset <= i64::MAX
                && front[i].resp_ts + 2 * latency_offset >= i64::MIN && front[i].resp_ts + 2
                * latency_offset <= i64::MAX by {
                assert(front[i] == rows[i]);
            }
            assert(rows[n].exch_ts + latency_offset <= i64::MAX);
        }
    }
}

/// Chunks of rows are fetched in the order of their sources, none twice: a slot that is known stays
/// as it is, the place moves by one for every chunk that comes in, and the second slot waits for the
/// first one.
pub proof fn slots_are_filled_in_order(
    chunks: Seq<SourceModel<OrderLatencyRow>>,
    parallel_load: bool,
    cache: CacheModel<OrderLatencyRow>,
    place: usize,
    data: SlotModel,
    next_data: SlotModel,
)
    requires
        place + 2 <= usize::MAX,
    ensures
        refilled(chunks, parallel_load, cache, place, data, next_data) matches Ok(
            (after, next, first, second),
        ) ==> {
            &&& !(data is Unknown) ==> first == data
            &&& !(next_data is Unknown) ==> second == next_data
            &&& first is Unknown ==> second == next_data
            &&& data is Unknown && first is Chunk ==> first->1 == place
            &&& next_data is Unknown && second is Chunk ==> second->1 == next - 1
            &&& data is Unknown && first is Chunk && next_data is Unknown && second is Chunk
                ==> second->1 == first->1 + 1
            &&& next - place == (if data is Unknown && first is Chunk {
                1int
            } else {
                0
            }) + (if next_data is Unknown && second is Chunk {
                1int
            } else {
                0
            })
        },
{
}

} // verus!
