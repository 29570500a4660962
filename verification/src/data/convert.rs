//! Converts complete feeds into one stream of stored events.
use vstd::prelude::*;
use vstd::string::*;

use crate::data::format::StoredEvent;
use crate::data::fuse::BookModel;
use crate::data::fuse::FixedFuse;
use crate::data::fuse::changes_book;
use crate::data::fuse::clears_remove_a_range;
use crate::data::fuse::empty_book;
use crate::data::fuse::fused;
use crate::data::fuse::in_order;
use crate::data::fuse::lemma_fused_in_order;
use crate::data::fuse::levels_come_from_updates;
use crate::data::fuse::one_price_of_the_side_changes;
use crate::data::fuse::quantity_at;
use crate::data::fuse::reaches;
use crate::data::fuse::side_of;
use crate::data::sorting::is_order_of;
use crate::data::sorting::lemma_order_exists;
use crate::data::sorting::precedes;
use crate::data::sorting::sort_positions;
use crate::data::sorting::stable_order;
use crate::data::tardis::FeedFault;
use crate::data::tardis::FeedKind;
use crate::data::tardis::TardisError;
use crate::data::tardis::feed_events;
use crate::data::tardis::feed_records;
use crate::data::tardis::read_feed;
use crate::data::tardis::row_events;
use crate::data::tardis::rows_events;
use crate::text::is_text;
use crate::types::BUY_EVENT;
use crate::types::DEPTH_CLEAR_EVENT;
use crate::types::DEPTH_SNAPSHOT_EVENT;
use crate::types::EXCH_EVENT;
use crate::types::LOCAL_EVENT;
use crate::types::SELL_EVENT;
use crate::types::kind_of;

verus! {

/// What becomes of the snapshots in a depth feed.
#[derive(Clone, Copy, Debug, PartialEq, Eq, Structural)]
pub enum SnapshotMode {
    /// They are published.
    Process,
    /// They are applied, and none is published.
    Ignore,
    /// They are applied, and the one at the start of the feed is not published.
    IgnoreSod,
}

/// The treatment of snapshots that a word stands for.
pub open spec fn snapshot_mode_of(word: Seq<char>) -> Option<SnapshotMode> {
    if word == "process"@ {
        Some(SnapshotMode::Process)
    } else if word == "ignore"@ {
        Some(SnapshotMode::Ignore)
    } else if word == "ignore_sod"@ {
        Some(SnapshotMode::IgnoreSod)
    } else {
        None
    }
}

/// Reads a treatment of snapshots.
pub fn parse_snapshot_mode(word: &String) -> (r: Option<SnapshotMode>)
    ensures
        r == snapshot_mode_of(word@),
{
    if is_text(word, "process") {
        Some(SnapshotMode::Process)
    } else if is_text(word, "ignore") {
        Some(SnapshotMode::Ignore)
    } else if is_text(word, "ignore_sod") {
        Some(SnapshotMode::IgnoreSod)
    } else {
        None
    }
}

impl Default for SnapshotMode {
    fn default() -> (r: SnapshotMode)
        ensures
            r == SnapshotMode::Process,
    {
        SnapshotMode::Process
    }
}

/// What a row of events does to the book, and what is published of them.
pub open spec fn fused_all(book: BookModel, events: Seq<StoredEvent>) -> (
    BookModel,
    Seq<StoredEvent>,
)
    decreases events.len(),
{
    if events.len() == 0 {
        (book, Seq::empty())
    } else {
        let before = fused_all(book, events.drop_last());
        let last = fused(before.0, events.last());
        (last.0, before.1 + last.1)
    }
}

/// Whether an event is a row of a snapshot.
pub open spec fn is_snapshot(event: StoredEvent) -> bool {
    kind_of(event.ev) == DEPTH_SNAPSHOT_EVENT
}

/// Where the snapshot that starts at `from` ends.
pub open spec fn snapshot_end(depth: Seq<StoredEvent>, from: int) -> int
    decreases depth.len() - from,
{
    if 0 <= from < depth.len() && is_snapshot(depth[from]) {
        snapshot_end(depth, from + 1)
    } else {
        from
    }
}

/// The rows of one side.
pub open spec fn side_rows(rows: Seq<StoredEvent>, side: u64) -> Seq<StoredEvent>
    decreases rows.len(),
{
    if rows.len() == 0 {
        rows
    } else if rows.last().ev & side != 0 {
        side_rows(rows.drop_last(), side).push(rows.last())
    } else {
        side_rows(rows.drop_last(), side)
    }
}

/// The price that is farthest from the other side: the lowest bid or the highest ask.
pub open spec fn farthest_price(rows: Seq<StoredEvent>, side: u64) -> i64
    decreases rows.len(),
{
    if rows.len() <= 1 {
        rows[0].px
    } else {
        let before = farthest_price(rows.drop_last(), side);
        let last = rows.last().px;
        if (side == BUY_EVENT && last < before) || (side != BUY_EVENT && last > before) {
            last
        } else {
            before
        }
    }
}

/// The clear that a snapshot of one side starts with.
pub open spec fn snapshot_clear(rows: Seq<StoredEvent>, side: u64) -> StoredEvent {
    StoredEvent {
        ev: DEPTH_CLEAR_EVENT | side,
        px: farthest_price(rows, side),
        qty: 0,
        exch_ts: rows[0].exch_ts,
        local_ts: rows[0].local_ts,
    }
}

/// What one side of a snapshot amounts to: a clear of the range that it covers, and its rows.
pub open spec fn snapshot_side(rows: Seq<StoredEvent>, side: u64) -> Seq<StoredEvent> {
    let own = side_rows(rows, side);
    if own.len() == 0 {
        own
    } else {
        seq![snapshot_clear(own, side)] + own
    }
}

/// What a snapshot amounts to: first the bids, then the asks.
pub open spec fn snapshot_events(rows: Seq<StoredEvent>) -> Seq<StoredEvent> {
    snapshot_side(rows, BUY_EVENT) + snapshot_side(rows, SELL_EVENT)
}

/// Whether a snapshot is published.
pub open spec fn publishes_snapshot(mode: SnapshotMode, at_start: bool) -> bool {
    mode != SnapshotMode::Ignore && !(mode == SnapshotMode::IgnoreSod && at_start)
}

/// What is published of the rest of two feeds, from positions `d` and `t` on. The earlier event by
/// local time comes first, and the depth where they are equal.
pub open spec fn fused_from(
    depth: Seq<StoredEvent>,
    ticker: Seq<StoredEvent>,
    mode: SnapshotMode,
    d: int,
    t: int,
    at_start: bool,
    book: BookModel,
) -> Seq<StoredEvent>
    decreases depth.len() - d + ticker.len() - t,
{
    if !(0 <= d <= depth.len() && 0 <= t <= ticker.len()) || (d == depth.len() && t
        == ticker.len()) {
        Seq::empty()
    } else if t < ticker.len() && (d == depth.len() || ticker[t].local_ts < depth[d].local_ts) {
        let r = fused(book, ticker[t]);
        r.1 + fused_from(depth, ticker, mode, d, t + 1, at_start, r.0)
    } else if is_snapshot(depth[d]) {
        proof {
            lemma_snapshot_ends(depth, d);
        }
        let end = snapshot_end(depth, d);
        let r = fused_all(book, snapshot_events(depth.subrange(d, end)));
        (if publishes_snapshot(mode, at_start) {
            r.1
        } else {
            Seq::empty()
        }) + fused_from(depth, ticker, mode, end, t, false, r.0)
    } else {
        let r = fused(book, depth[d]);
        r.1 + fused_from(depth, ticker, mode, d + 1, t, false, r.0)
    }
}

/// Whether every event changes a book.
pub open spec fn all_change_book(events: Seq<StoredEvent>) -> bool {
    forall|i: int| 0 <= i < events.len() ==> changes_book((#[trigger] events[i]).ev)
}

/// A snapshot ends behind its first row.
pub proof fn lemma_snapshot_ends(depth: Seq<StoredEvent>, from: int)
    requires
        0 <= from <= depth.len(),
    ensures
        from <= snapshot_end(depth, from) <= depth.len(),
        from < depth.len() && is_snapshot(depth[from]) ==> from < snapshot_end(depth, from),
    decreases depth.len() - from,
{
    if from < depth.len() && is_snapshot(depth[from]) {
        lemma_snapshot_ends(depth, from + 1);
    }
}

/// A snapshot ends behind its first row, at a row that is none of it.
pub proof fn lemma_snapshot_end(depth: Seq<StoredEvent>, from: int, end: int)
    requires
        0 <= from <= end <= depth.len(),
        forall|i: int| from <= i < end ==> is_snapshot(#[trigger] depth[i]),
        end < depth.len() ==> !is_snapshot(depth[end]),
    ensures
        snapshot_end(depth, from) == end,
    decreases end - from,
{
    if from < end {
        assert(is_snapshot(depth[from]));
        lemma_snapshot_end(depth, from + 1, end);
    }
}

/// What two rows of events do one behind the other.
proof fn lemma_fused_joined(book: BookModel, a: Seq<StoredEvent>, b: Seq<StoredEvent>)
    ensures
        fused_all(book, a + b) == ({
            let first = fused_all(book, a);
            let second = fused_all(first.0, b);
            (second.0, first.1 + second.1)
        }),
    decreases b.len(),
{
    let first = fused_all(book, a);
    if b.len() == 0 {
        assert(a + b =~= a);
        assert(first.1 + Seq::<StoredEvent>::empty() =~= first.1);
    } else {
        lemma_fused_joined(book, a, b.drop_last());
        assert((a + b).drop_last() =~= a + b.drop_last());
        let middle = fused_all(first.0, b.drop_last());
        let last = fused(middle.0, b.last());
        assert(first.1 + middle.1 + last.1 =~= first.1 + (middle.1 + last.1));
    }
}

/// A clear of either side is one.
pub proof fn lemma_clear_flag()
    ensures
        kind_of(DEPTH_CLEAR_EVENT | BUY_EVENT) == DEPTH_CLEAR_EVENT,
        kind_of(DEPTH_CLEAR_EVENT | SELL_EVENT) == DEPTH_CLEAR_EVENT,
{
    assert((3u64 | 0x2000_0000) & 0xff == 3) by (bit_vector);
    assert((3u64 | 0x1000_0000) & 0xff == 3) by (bit_vector);
}

/// A clear of one side names that side alone.
proof fn lemma_clear_side()
    ensures
        (DEPTH_CLEAR_EVENT | BUY_EVENT) & BUY_EVENT != 0,
        (DEPTH_CLEAR_EVENT | SELL_EVENT) & BUY_EVENT == 0,
        (DEPTH_CLEAR_EVENT | SELL_EVENT) & SELL_EVENT != 0,
{
    assert((3u64 | 0x2000_0000) & 0x2000_0000 != 0) by (bit_vector);
    assert((3u64 | 0x1000_0000) & 0x2000_0000 == 0) by (bit_vector);
    assert((3u64 | 0x1000_0000) & 0x1000_0000 != 0) by (bit_vector);
}

/// Applies a row of events and appends what is published of them.
fn process_all(fuse: &mut FixedFuse, events: &Vec<StoredEvent>, output: &mut Vec<StoredEvent>)
    requires
        old(fuse).wf(),
        all_change_book(events@),
    ensures
        final(fuse).wf(),
        final(fuse)@ == fused_all(old(fuse)@, events@).0,
        final(output)@ == old(output)@ + fused_all(old(fuse)@, events@).1,
{
    let mut i: usize = 0;
    assert(events@.take(0) =~= Seq::<StoredEvent>::empty());
    while i < events.len()
        invariant
            i <= events@.len(),
            all_change_book(events@),
            fuse.wf(),
            fuse@ == fused_all(old(fuse)@, events@.take(i as int)).0,
            output@ =~= old(output)@ + fused_all(old(fuse)@, events@.take(i as int)).1,
        decreases events@.len() - i,
    {
        let event: StoredEvent = events[i];
        assert(changes_book(events@[i as int].ev));
        let mut published: Vec<StoredEvent> = fuse.process(event);
        assert(events@.take(i + 1).drop_last() =~= events@.take(i as int));
        output.append(&mut published);
        i = i + 1;
    }
    assert(events@.take(i as int) =~= events@);
}

/// The rows of one side of a snapshot, with the clear that they start with.
fn collect_snapshot_side(depth: &[StoredEvent], start: usize, end: usize, side: u64) -> (r: Vec<
    StoredEvent,
>)
    requires
        start <= end <= depth@.len(),
        side == BUY_EVENT || side == SELL_EVENT,
        all_change_book(depth@),
    ensures
        r@ == snapshot_side(depth@.subrange(start as int, end as int), side),
        all_change_book(r@),
{
    let ghost rows = depth@.subrange(start as int, end as int);
    let mut own: Vec<StoredEvent> = Vec::new();
    let mut limit: i64 = 0;
    let mut i: usize = start;
    assert(rows.take(0) =~= Seq::<StoredEvent>::empty());
    while i < end
        invariant
            start <= i <= end <= depth@.len(),
            side == BUY_EVENT || side == SELL_EVENT,
            all_change_book(depth@),
            rows == depth@.subrange(start as int, end as int),
            own@ == side_rows(rows.take(i - start), side),
            own@.len() > 0 ==> limit == farthest_price(own@, side),
            all_change_book(own@),
        decreases end - i,
    {
        let row: StoredEvent = depth[i];
        assert(changes_book(depth@[i as int].ev));
        assert(rows.take(i - start + 1).drop_last() =~= rows.take(i - start));
        if row.ev & side != 0 {
            let ghost before = own@;
            if own.len() == 0 || (side == BUY_EVENT && row.px < limit) || (side != BUY_EVENT
                && row.px > limit) {
                limit = row.px;
            }
            own.push(row);
            assert(own@.drop_last() =~= before);
        }
        i = i + 1;
    }
    assert(rows.take(i - start) =~= rows);
    if own.len() == 0 {
        return own;
    }
    proof {
        lemma_clear_flag();
    }
    let clear: StoredEvent = StoredEvent {
        ev: DEPTH_CLEAR_EVENT | side,
        px: limit,
        qty: 0,
        exch_ts: own[0].exch_ts,
        local_ts: own[0].local_ts,
    };
    let ghost all = seq![clear] + own@;
    own.insert(0, clear);
    assert(own@ =~= all);
    own
}

/// Fuses a depth feed and a feed of best bids and offers.
///
/// A snapshot replaces the range of prices that it covers.
pub fn fuse_events(depth: &[StoredEvent], ticker: &[StoredEvent], mode: SnapshotMode) -> (r: Vec<
    StoredEvent,
>)
    requires
        all_change_book(depth@),
        all_change_book(ticker@),
    ensures
        r@ == fused_from(depth@, ticker@, mode, 0, 0, true, empty_book()),
{
    let mut fuse: FixedFuse = FixedFuse::new();
    let mut output: Vec<StoredEvent> = Vec::new();
    let mut d: usize = 0;
    let mut t: usize = 0;
    let mut at_start: bool = true;
    let ghost expected = fused_from(depth@, ticker@, mode, 0, 0, true, empty_book());
    while d < depth.len() || t < ticker.len()
        invariant
            d <= depth@.len(),
            t <= ticker@.len(),
            all_change_book(depth@),
            all_change_book(ticker@),
            fuse.wf(),
            output@ + fused_from(depth@, ticker@, mode, d as int, t as int, at_start, fuse@)
                =~= expected,
        decreases depth@.len() - d + ticker@.len() - t,
    {
        let ghost rest = fused_from(depth@, ticker@, mode, d as int, t as int, at_start, fuse@);
        let ghost before = output@;
        if t < ticker.len() && (d == depth.len() || ticker[t].local_ts < depth[d].local_ts) {
            let event: StoredEvent = ticker[t];
            assert(changes_book(ticker@[t as int].ev));
            let mut published: Vec<StoredEvent> = fuse.process(event);
            output.append(&mut published);
            t = t + 1;
        } else if depth[d].ev & 0xff == DEPTH_SNAPSHOT_EVENT {
            let start: usize = d;
            while d < depth.len() && depth[d].ev & 0xff == DEPTH_SNAPSHOT_EVENT
                invariant
                    start <= d <= depth@.len(),
                    forall|i: int| start <= i < d ==> is_snapshot(#[trigger] depth@[i]),
                decreases depth@.len() - d,
            {
                d = d + 1;
            }
            proof {
                lemma_snapshot_end(depth@, start as int, d as int);
            }
            assert(d > start);
            let publish: bool = mode != SnapshotMode::Ignore && !(mode == SnapshotMode::IgnoreSod
                && at_start);
            let bids: Vec<StoredEvent> = collect_snapshot_side(depth, start, d, BUY_EVENT);
            let asks: Vec<StoredEvent> = collect_snapshot_side(depth, start, d, SELL_EVENT);
            proof {
                lemma_fused_joined(fuse@, bids@, asks@);
            }
            let mut published: Vec<StoredEvent> = Vec::new();
            process_all(&mut fuse, &bids, &mut published);
            process_all(&mut fuse, &asks, &mut published);
            if publish {
                output.append(&mut published);
            }
            at_start = false;
        } else {
            let event: StoredEvent = depth[d];
            assert(changes_book(depth@[d as int].ev));
            let mut published: Vec<StoredEvent> = fuse.process(event);
            output.append(&mut published);
            d = d + 1;
            at_start = false;
        }
        assert(output@ + fused_from(depth@, ticker@, mode, d as int, t as int, at_start, fuse@)
            =~= before + rest);
    }
    assert(output@ + Seq::<StoredEvent>::empty() =~= output@);
    output
}

/// The smallest latency, local time less exchange time; zero where there is no event.
pub open spec fn minimum_latency(events: Seq<StoredEvent>) -> int
    decreases events.len(),
{
    if events.len() == 0 {
        0
    } else {
        let last = events.last().local_ts - events.last().exch_ts;
        if events.len() == 1 || last < minimum_latency(events.drop_last()) {
            last
        } else {
            minimum_latency(events.drop_last())
        }
    }
}

/// By how much local time is moved: where an event is received before it happens, so far that the
/// smallest latency becomes `base_latency`.
pub open spec fn latency_offset(events: Seq<StoredEvent>, base_latency: i64) -> int {
    if minimum_latency(events) < 0 {
        base_latency - minimum_latency(events)
    } else {
        0
    }
}

/// Whether every local time can be moved by `offset`.
pub open spec fn can_move(events: Seq<StoredEvent>, offset: int) -> bool {
    forall|i: int|
        0 <= i < events.len() ==> i64::MIN <= (#[trigger] events[i]).local_ts + offset <= i64::MAX
}

/// The events with their local time moved by `offset`.
pub open spec fn moved(events: Seq<StoredEvent>, offset: int) -> Seq<StoredEvent> {
    Seq::new(
        events.len(),
        |i: int| StoredEvent { local_ts: (events[i].local_ts + offset) as i64, ..events[i] },
    )
}

/// The exchange times.
pub open spec fn exchange_times(events: Seq<StoredEvent>) -> Seq<i64> {
    Seq::new(events.len(), |i: int| events[i].exch_ts)
}

/// The local times.
pub open spec fn local_times(events: Seq<StoredEvent>) -> Seq<i64> {
    Seq::new(events.len(), |i: int| events[i].local_ts)
}

/// Whether an event comes before another by exchange time, then by local time, then by position.
pub open spec fn earlier(events: Seq<StoredEvent>, a: int, b: int) -> bool {
    let x = events[a];
    let y = events[b];
    x.exch_ts < y.exch_ts || (x.exch_ts == y.exch_ts && (x.local_ts < y.local_ts || (x.local_ts
        == y.local_ts && a < b)))
}

/// An event with flags added.
pub open spec fn flagged(event: StoredEvent, flags: u64) -> StoredEvent {
    StoredEvent { ev: event.ev | flags, ..event }
}

/// One row that follows both clocks, from the positions `e` and `l` in the two orders on. An event
/// that comes next on both clocks is one row; otherwise it is a row for each clock.
pub open spec fn both_clocks(
    events: Seq<StoredEvent>,
    exchange: Seq<usize>,
    local: Seq<usize>,
    e: int,
    l: int,
) -> Seq<StoredEvent>
    decreases exchange.len() - e + local.len() - l,
{
    if !(0 <= e <= exchange.len() && 0 <= l <= local.len()) || (e == exchange.len() && l
        == local.len()) {
        Seq::empty()
    } else if e < exchange.len() && l < local.len() && exchange[e] == local[l] {
        seq![flagged(events[exchange[e] as int], EXCH_EVENT | LOCAL_EVENT)] + both_clocks(
            events,
            exchange,
            local,
            e + 1,
            l + 1,
        )
    } else if e < exchange.len() && (l == local.len() || earlier(
        events,
        exchange[e] as int,
        local[l] as int,
    )) {
        seq![flagged(events[exchange[e] as int], EXCH_EVENT)] + both_clocks(
            events,
            exchange,
            local,
            e + 1,
            l,
        )
    } else {
        seq![flagged(events[local[l] as int], LOCAL_EVENT)] + both_clocks(
            events,
            exchange,
            local,
            e,
            l + 1,
        )
    }
}

/// The events in one row that follows both clocks.
pub open spec fn on_both_clocks(events: Seq<StoredEvent>) -> Seq<StoredEvent> {
    both_clocks(
        events,
        stable_order(exchange_times(events)),
        stable_order(local_times(events)),
        0,
        0,
    )
}

/// The smallest latency.
fn find_minimum_latency(events: &Vec<StoredEvent>) -> (r: i128)
    ensures
        r == minimum_latency(events@),
        i64::MIN - i64::MAX <= r <= i64::MAX - i64::MIN,
{
    let mut minimum: i128 = 0;
    let mut i: usize = 0;
    assert(events@.take(0) =~= Seq::<StoredEvent>::empty());
    while i < events.len()
        invariant
            i <= events@.len(),
            minimum == minimum_latency(events@.take(i as int)),
            i64::MIN - i64::MAX <= minimum <= i64::MAX - i64::MIN,
        decreases events@.len() - i,
    {
        assert(events@.take(i + 1).drop_last() =~= events@.take(i as int));
        let latency: i128 = events[i].local_ts as i128 - events[i].exch_ts as i128;
        if i == 0 || latency < minimum {
            minimum = latency;
        }
        i = i + 1;
    }
    assert(events@.take(i as int) =~= events@);
    minimum
}

/// Moves the local times, where that fits.
fn move_local_times(events: Vec<StoredEvent>, offset: i128) -> (r: Option<Vec<StoredEvent>>)
    requires
        -0x1_0000_0000_0000_0000_0000 < offset < 0x1_0000_0000_0000_0000_0000,
    ensures
        r is Some <==> can_move(events@, offset as int),
        r matches Some(v) ==> v@ == moved(events@, offset as int),
{
    let mut result: Vec<StoredEvent> = Vec::new();
    let mut i: usize = 0;
    while i < events.len()
        invariant
            i <= events@.len(),
            -0x1_0000_0000_0000_0000_0000 < offset < 0x1_0000_0000_0000_0000_0000,
            result@ =~= moved(events@, offset as int).take(i as int),
            forall|k: int|
                0 <= k < i ==> i64::MIN <= (#[trigger] events@[k]).local_ts + offset <= i64::MAX,
        decreases events@.len() - i,
    {
        let event: StoredEvent = events[i];
        let local_ts: i128 = event.local_ts as i128 + offset;
        if local_ts < i64::MIN as i128 || local_ts > i64::MAX as i128 {
            assert(!(i64::MIN <= events@[i as int].local_ts + offset <= i64::MAX));
            return None;
        }
        result.push(StoredEvent { local_ts: local_ts as i64, ..event });
        i = i + 1;
    }
    assert(moved(events@, offset as int).take(i as int) =~= moved(events@, offset as int));
    Some(result)
}

/// Puts events into one row that follows both clocks.
///
/// Where an event is received before it happens, all local times are moved first, so far that the
/// smallest latency becomes `base_latency`. There is no result where a moved time does not fit.
pub fn order_events(events: Vec<StoredEvent>, base_latency: i64) -> (r: Option<Vec<StoredEvent>>)
    ensures
        ({
            let offset = latency_offset(events@, base_latency);
            &&& r is Some <==> can_move(events@, offset)
            &&& r matches Some(v) ==> v@ == on_both_clocks(moved(events@, offset))
        }),
{
    let minimum: i128 = find_minimum_latency(&events);
    let offset: i128 = if minimum < 0 {
        base_latency as i128 - minimum
    } else {
        0
    };
    let events: Vec<StoredEvent> = match move_local_times(events, offset) {
        Some(events) => events,
        None => {
            return None;
        },
    };
    let mut exchange_keys: Vec<i64> = Vec::new();
    let mut local_keys: Vec<i64> = Vec::new();
    let mut i: usize = 0;
    while i < events.len()
        invariant
            i <= events@.len(),
            exchange_keys@ =~= exchange_times(events@).take(i as int),
            local_keys@ =~= local_times(events@).take(i as int),
        decreases events@.len() - i,
    {
        exchange_keys.push(events[i].exch_ts);
        local_keys.push(events[i].local_ts);
        i = i + 1;
    }
    assert(exchange_keys@ =~= exchange_times(events@));
    assert(local_keys@ =~= local_times(events@));
    let exchange: Vec<usize> = sort_positions(&exchange_keys);
    let local: Vec<usize> = sort_positions(&local_keys);
    let mut e: usize = 0;
    let mut l: usize = 0;
    let mut output: Vec<StoredEvent> = Vec::new();
    let ghost expected = both_clocks(events@, exchange@, local@, 0, 0);
    while e < exchange.len() || l < local.len()
        invariant
            e <= exchange@.len(),
            l <= local@.len(),
            is_order_of(exchange@, exchange_times(events@), 0, events@.len() as int),
            is_order_of(local@, local_times(events@), 0, events@.len() as int),
            output@ + both_clocks(events@, exchange@, local@, e as int, l as int) =~= expected,
        decreases exchange@.len() - e + local@.len() - l,
    {
        let ghost before = output@;
        let ghost rest = both_clocks(events@, exchange@, local@, e as int, l as int);
        if e < exchange.len() && l < local.len() && exchange[e] == local[l] {
            let mut event: StoredEvent = events[exchange[e]];
            event.ev = event.ev | (EXCH_EVENT | LOCAL_EVENT);
            output.push(event);
            e = e + 1;
            l = l + 1;
        } else if e < exchange.len() && (l == local.len() || is_earlier(
            &events,
            exchange[e],
            local[l],
        )) {
            let mut event: StoredEvent = events[exchange[e]];
            event.ev = event.ev | EXCH_EVENT;
            output.push(event);
            e = e + 1;
        } else {
            let mut event: StoredEvent = events[local[l]];
            event.ev = event.ev | LOCAL_EVENT;
            output.push(event);
            l = l + 1;
        }
        assert(output@ + both_clocks(events@, exchange@, local@, e as int, l as int) =~= before
            + rest);
    }
    assert(output@ + Seq::<StoredEvent>::empty() =~= output@);
    Some(output)
}

/// No latency is below the smallest, and one is the smallest.
pub proof fn lemma_minimum_latency(events: Seq<StoredEvent>)
    ensures
        forall|i: int|
            0 <= i < events.len() ==> (#[trigger] events[i]).local_ts - events[i].exch_ts
                >= minimum_latency(events),
        events.len() > 0 ==> exists|i: int|
            0 <= i < events.len() && (#[trigger] events[i]).local_ts - events[i].exch_ts
                == minimum_latency(events),
    decreases events.len(),
{
    if events.len() > 0 {
        let front = events.drop_last();
        lemma_minimum_latency(front);
        let last = events.len() - 1;
        assert forall|i: int| 0 <= i < events.len() implies (#[trigger] events[i]).local_ts
            - events[i].exch_ts >= minimum_latency(events) by {
            if i < last {
                assert(front[i] == events[i]);
            }
        }
        if minimum_latency(events) == events[last].local_ts - events[last].exch_ts {
        } else {
            let i = choose|i: int|
                0 <= i < front.len() && (#[trigger] front[i]).local_ts - front[i].exch_ts
                    == minimum_latency(front);
            assert(events[i] == front[i]);
        }
    }
}

/// After the local times are moved no event is received before it happens, and where they had to
/// be moved the smallest latency is the base latency.
pub proof fn moving_restores_causality(events: Seq<StoredEvent>, base_latency: i64)
    requires
        base_latency >= 0,
        can_move(events, latency_offset(events, base_latency)),
    ensures
        ({
            let after = moved(events, latency_offset(events, base_latency));
            &&& forall|i: int|
                0 <= i < after.len() ==> (#[trigger] after[i]).local_ts >= after[i].exch_ts
            &&& minimum_latency(events) < 0 ==> minimum_latency(after) == base_latency
        }),
{
    let offset = latency_offset(events, base_latency);
    let after = moved(events, offset);
    lemma_minimum_latency(events);
    lemma_minimum_latency(after);
    assert forall|i: int| 0 <= i < after.len() implies (#[trigger] after[i]).local_ts
        == events[i].local_ts + offset by {
        assert(i64::MIN <= events[i].local_ts + offset <= i64::MAX);
    }
    if minimum_latency(events) < 0 {
        let i = choose|i: int|
            0 <= i < events.len() && (#[trigger] events[i]).local_ts - events[i].exch_ts
                == minimum_latency(events);
        assert(after[i].local_ts - after[i].exch_ts == base_latency);
        let j = choose|j: int|
            0 <= j < after.len() && (#[trigger] after[j]).local_ts - after[j].exch_ts
                == minimum_latency(after);
        assert(events[j].local_ts - events[j].exch_ts >= minimum_latency(events));
    }
}

/// Whether an event comes before another by exchange time, then by local time, then by position.
fn is_earlier(events: &Vec<StoredEvent>, a: usize, b: usize) -> (r: bool)
    requires
        a < events@.len(),
        b < events@.len(),
    ensures
        r == earlier(events@, a as int, b as int),
{
    let x: StoredEvent = events[a];
    let y: StoredEvent = events[b];
    x.exch_ts < y.exch_ts || (x.exch_ts == y.exch_ts && (x.local_ts < y.local_ts || (x.local_ts
        == y.local_ts && a < b)))
}

/// The rows that carry a flag.
pub open spec fn rows_with(rows: Seq<StoredEvent>, flag: u64) -> Seq<StoredEvent>
    decreases rows.len(),
{
    if rows.len() == 0 {
        rows
    } else if rows[0].ev & flag != 0 {
        seq![rows[0]] + rows_with(rows.skip(1), flag)
    } else {
        rows_with(rows.skip(1), flag)
    }
}

/// Whether an event carries neither clock's flag.
pub open spec fn unflagged(event: StoredEvent) -> bool {
    event.ev & EXCH_EVENT == 0 && event.ev & LOCAL_EVENT == 0
}

/// The flags of an event but for those of the two clocks.
pub open spec fn other_flags(ev: u64) -> u64 {
    ev & !(EXCH_EVENT | LOCAL_EVENT)
}

/// Whether an event carries the flag of a clock.
pub open spec fn on_a_clock(event: StoredEvent) -> bool {
    event.ev & EXCH_EVENT != 0 || event.ev & LOCAL_EVENT != 0
}

/// Whether two events agree but for the flags of the two clocks.
pub open spec fn same_but_clocks(a: StoredEvent, b: StoredEvent) -> bool {
    a.exch_ts == b.exch_ts && a.local_ts == b.local_ts && a.px == b.px && a.qty == b.qty
        && other_flags(a.ev) == other_flags(b.ev)
}

/// What the flags of the two clocks do to each other.
proof fn lemma_clock_flags(ev: u64)
    requires
        ev & EXCH_EVENT == 0,
        ev & LOCAL_EVENT == 0,
    ensures
        (ev | (EXCH_EVENT | LOCAL_EVENT)) & EXCH_EVENT != 0,
        (ev | (EXCH_EVENT | LOCAL_EVENT)) & LOCAL_EVENT != 0,
        (ev | EXCH_EVENT) & EXCH_EVENT != 0,
        (ev | EXCH_EVENT) & LOCAL_EVENT == 0,
        (ev | LOCAL_EVENT) & LOCAL_EVENT != 0,
        (ev | LOCAL_EVENT) & EXCH_EVENT == 0,
        other_flags(ev | (EXCH_EVENT | LOCAL_EVENT)) == other_flags(ev),
        other_flags(ev | EXCH_EVENT) == other_flags(ev),
        other_flags(ev | LOCAL_EVENT) == other_flags(ev),
{
    assert((ev | (0x8000_0000u64 | 0x4000_0000)) & !(0x8000_0000u64 | 0x4000_0000) == ev & !(
    0x8000_0000u64 | 0x4000_0000)) by (bit_vector);
    assert((ev | 0x8000_0000u64) & !(0x8000_0000u64 | 0x4000_0000) == ev & !(0x8000_0000u64
        | 0x4000_0000)) by (bit_vector);
    assert((ev | 0x4000_0000u64) & !(0x8000_0000u64 | 0x4000_0000) == ev & !(0x8000_0000u64
        | 0x4000_0000)) by (bit_vector);
    assert((ev | (0x8000_0000u64 | 0x4000_0000)) & 0x8000_0000 != 0) by (bit_vector);
    assert((ev | (0x8000_0000u64 | 0x4000_0000)) & 0x4000_0000 != 0) by (bit_vector);
    assert((ev | 0x8000_0000u64) & 0x8000_0000 != 0) by (bit_vector);
    assert((ev | 0x4000_0000u64) & 0x4000_0000 != 0) by (bit_vector);
    assert(ev & 0x4000_0000u64 == 0 ==> (ev | 0x8000_0000u64) & 0x4000_0000 == 0) by (bit_vector);
    assert(ev & 0x8000_0000u64 == 0 ==> (ev | 0x4000_0000u64) & 0x8000_0000 == 0) by (bit_vector);
}

/// The rows of each clock are the rest of its order.
proof fn lemma_clock_rows(
    events: Seq<StoredEvent>,
    exchange: Seq<usize>,
    local: Seq<usize>,
    e: int,
    l: int,
)
    requires
        0 <= e <= exchange.len(),
        0 <= l <= local.len(),
        forall|i: int| 0 <= i < exchange.len() ==> #[trigger] exchange[i] < events.len(),
        forall|i: int| 0 <= i < local.len() ==> #[trigger] local[i] < events.len(),
        forall|i: int| 0 <= i < events.len() ==> unflagged(#[trigger] events[i]),
    ensures
        ({
            let rows = both_clocks(events, exchange, local, e, l);
            let by_exchange = rows_with(rows, EXCH_EVENT);
            let by_local = rows_with(rows, LOCAL_EVENT);
            &&& forall|i: int| 0 <= i < rows.len() ==> on_a_clock(#[trigger] rows[i])
            &&& by_exchange.len() == exchange.len() - e
            &&& by_local.len() == local.len() - l
            &&& forall|i: int|
                0 <= i < by_exchange.len() ==> same_but_clocks(
                    #[trigger] by_exchange[i],
                    events[exchange[e + i] as int],
                )
            &&& forall|i: int|
                0 <= i < by_local.len() ==> same_but_clocks(
                    #[trigger] by_local[i],
                    events[local[l + i] as int],
                )
        }),
    decreases exchange.len() - e + local.len() - l,
{
    let rows = both_clocks(events, exchange, local, e, l);
    if e < exchange.len() || l < local.len() {
        let both = e < exchange.len() && l < local.len() && exchange[e] == local[l];
        let exchange_next = !both && e < exchange.len() && (l == local.len() || earlier(
            events,
            exchange[e] as int,
            local[l] as int,
        ));
        let e1 = if both || exchange_next {
            e + 1
        } else {
            e
        };
        let l1 = if exchange_next {
            l
        } else {
            l + 1
        };
        let index = if both || exchange_next {
            exchange[e] as int
        } else {
            local[l] as int
        };
        let rest = both_clocks(events, exchange, local, e1, l1);
        lemma_clock_rows(events, exchange, local, e1, l1);
        assert(unflagged(events[index]));
        lemma_clock_flags(events[index].ev);
        assert(rows.skip(1) =~= rest);
        assert forall|i: int| 0 <= i < rows.len() implies on_a_clock(#[trigger] rows[i]) by {
            if i > 0 {
                assert(rows[i] == rest[i - 1]);
            }
        }
        let by_exchange = rows_with(rows, EXCH_EVENT);
        let by_local = rows_with(rows, LOCAL_EVENT);
        let rest_exchange = rows_with(rest, EXCH_EVENT);
        let rest_local = rows_with(rest, LOCAL_EVENT);
        assert forall|i: int| 0 <= i < by_exchange.len() implies same_but_clocks(
            #[trigger] by_exchange[i],
            events[exchange[e + i] as int],
        ) by {
            if e1 == e {
                assert(by_exchange[i] == rest_exchange[i]);
            } else if i > 0 {
                assert(by_exchange[i] == rest_exchange[i - 1]);
            }
        }
        assert forall|i: int| 0 <= i < by_local.len() implies same_but_clocks(
            #[trigger] by_local[i],
            events[local[l + i] as int],
        ) by {
            if l1 == l {
                assert(by_local[i] == rest_local[i]);
            } else if i > 0 {
                assert(by_local[i] == rest_local[i - 1]);
            }
        }
    }
}

/// Whether every row is flagged for a clock, and the rows flagged for a clock are all the events,
/// each once and with its other flags, in the stable order of that clock's time.
pub open spec fn follow_both_clocks(rows: Seq<StoredEvent>, events: Seq<StoredEvent>) -> bool {
    let by_exchange = rows_with(rows, EXCH_EVENT);
    let by_local = rows_with(rows, LOCAL_EVENT);
    let exchange = stable_order(exchange_times(events));
    let local = stable_order(local_times(events));
    &&& is_order_of(exchange, exchange_times(events), 0, events.len() as int)
    &&& is_order_of(local, local_times(events), 0, events.len() as int)
    &&& forall|i: int| 0 <= i < rows.len() ==> on_a_clock(#[trigger] rows[i])
    &&& by_exchange.len() == events.len()
    &&& by_local.len() == events.len()
    &&& forall|i: int|
        0 <= i < events.len() ==> same_but_clocks(
            #[trigger] by_exchange[i],
            events[exchange[i] as int],
        )
    &&& forall|i: int|
        0 <= i < events.len() ==> same_but_clocks(#[trigger] by_local[i], events[local[i] as int])
    &&& forall|i: int, j: int|
        0 <= i < j < events.len() ==> (#[trigger] by_exchange[i]).exch_ts <= (
        #[trigger] by_exchange[j]).exch_ts
    &&& forall|i: int, j: int|
        0 <= i < j < events.len() ==> (#[trigger] by_local[i]).local_ts <= (
        #[trigger] by_local[j]).local_ts
}

/// Ordering loses no event and follows both clocks. This holds of events that carry neither clock's
/// flag yet.
pub proof fn ordering_follows_both_clocks(events: Seq<StoredEvent>)
    requires
        events.len() <= usize::MAX,
        forall|i: int| 0 <= i < events.len() ==> unflagged(#[trigger] events[i]),
    ensures
        follow_both_clocks(on_both_clocks(events), events),
{
    let exchange = stable_order(exchange_times(events));
    let local = stable_order(local_times(events));
    lemma_order_exists(exchange_times(events));
    lemma_order_exists(local_times(events));
    lemma_clock_rows(events, exchange, local, 0, 0);
    let by_exchange = rows_with(on_both_clocks(events), EXCH_EVENT);
    let by_local = rows_with(on_both_clocks(events), LOCAL_EVENT);
    assert forall|i: int, j: int| 0 <= i < j < events.len() implies (
    #[trigger] by_exchange[i]).exch_ts <= (#[trigger] by_exchange[j]).exch_ts by {
        assert(precedes(exchange_times(events), exchange[i] as int, exchange[j] as int));
        assert(same_but_clocks(by_exchange[i], events[exchange[0 + i] as int]));
        assert(same_but_clocks(by_exchange[j], events[exchange[0 + j] as int]));
    }
    assert forall|i: int, j: int| 0 <= i < j < events.len() implies (
    #[trigger] by_local[i]).local_ts <= (#[trigger] by_local[j]).local_ts by {
        assert(precedes(local_times(events), local[i] as int, local[j] as int));
        assert(same_but_clocks(by_local[i], events[local[0 + i] as int]));
        assert(same_but_clocks(by_local[j], events[local[0 + j] as int]));
    }
}

/// Whether no event carries a clock's flag.
pub open spec fn all_unflagged(events: Seq<StoredEvent>) -> bool {
    forall|i: int| 0 <= i < events.len() ==> unflagged(#[trigger] events[i])
}

/// What is published of an event carries no clock's flag unless the event does.
proof fn lemma_fused_unflagged(book: BookModel, event: StoredEvent)
    requires
        unflagged(event),
    ensures
        all_unflagged(fused(book, event).1),
{
    let ev = event.ev;
    assert(((1u64 | 0x2000_0000) & 0x8000_0000 == 0) && ((1u64 | 0x1000_0000) & 0x8000_0000 == 0)
        && ((1u64 | 0x2000_0000) & 0x4000_0000 == 0) && ((1u64 | 0x1000_0000) & 0x4000_0000 == 0))
        by (bit_vector);
    assert(ev & 0x8000_0000u64 == 0 ==> ((ev & !0xffu64) | 1) & 0x8000_0000 == 0) by (bit_vector);
    assert(ev & 0x4000_0000u64 == 0 ==> ((ev & !0xffu64) | 1) & 0x4000_0000 == 0) by (bit_vector);
}

/// What is published of a row of events carries no clock's flag unless one of them does.
proof fn lemma_fused_all_unflagged(book: BookModel, events: Seq<StoredEvent>)
    requires
        all_unflagged(events),
    ensures
        all_unflagged(fused_all(book, events).1),
    decreases events.len(),
{
    if events.len() > 0 {
        let front = events.drop_last();
        assert forall|i: int| 0 <= i < front.len() implies unflagged(#[trigger] front[i]) by {
            assert(front[i] == events[i]);
        }
        lemma_fused_all_unflagged(book, front);
        assert(unflagged(events[events.len() - 1]));
        lemma_fused_unflagged(fused_all(book, front).0, events.last());
    }
}

/// What a snapshot amounts to carries no clock's flag unless one of its rows does.
proof fn lemma_snapshot_unflagged(rows: Seq<StoredEvent>, side: u64)
    requires
        all_unflagged(rows),
        side == BUY_EVENT || side == SELL_EVENT,
    ensures
        all_unflagged(side_rows(rows, side)),
        all_unflagged(snapshot_side(rows, side)),
    decreases rows.len(),
{
    assert(((3u64 | 0x2000_0000) & 0x8000_0000 == 0) && ((3u64 | 0x1000_0000) & 0x8000_0000 == 0)
        && ((3u64 | 0x2000_0000) & 0x4000_0000 == 0) && ((3u64 | 0x1000_0000) & 0x4000_0000 == 0))
        by (bit_vector);
    if rows.len() > 0 {
        let front = rows.drop_last();
        assert forall|i: int| 0 <= i < front.len() implies unflagged(#[trigger] front[i]) by {
            assert(front[i] == rows[i]);
        }
        lemma_snapshot_unflagged(front, side);
        assert(unflagged(rows[rows.len() - 1]));
    }
}

/// What is published of two feeds carries no clock's flag unless one of their events does.
proof fn lemma_fused_from_unflagged(
    depth: Seq<StoredEvent>,
    ticker: Seq<StoredEvent>,
    mode: SnapshotMode,
    d: int,
    t: int,
    at_start: bool,
    book: BookModel,
)
    requires
        0 <= d <= depth.len(),
        0 <= t <= ticker.len(),
        all_unflagged(depth),
        all_unflagged(ticker),
    ensures
        all_unflagged(fused_from(depth, ticker, mode, d, t, at_start, book)),
    decreases depth.len() - d + ticker.len() - t,
{
    if d == depth.len() && t == ticker.len() {
    } else if t < ticker.len() && (d == depth.len() || ticker[t].local_ts < depth[d].local_ts) {
        lemma_fused_unflagged(book, ticker[t]);
        lemma_fused_from_unflagged(
            depth,
            ticker,
            mode,
            d,
            t + 1,
            at_start,
            fused(book, ticker[t]).0,
        );
    } else if is_snapshot(depth[d]) {
        lemma_snapshot_ends(depth, d);
        let end = snapshot_end(depth, d);
        let rows = depth.subrange(d, end);
        assert forall|i: int| 0 <= i < rows.len() implies unflagged(#[trigger] rows[i]) by {
            assert(rows[i] == depth[d + i]);
        }
        lemma_snapshot_unflagged(rows, BUY_EVENT);
        lemma_snapshot_unflagged(rows, SELL_EVENT);
        lemma_fused_all_unflagged(book, snapshot_events(rows));
        lemma_fused_from_unflagged(
            depth,
            ticker,
            mode,
            end,
            t,
            false,
            fused_all(book, snapshot_events(rows)).0,
        );
    } else {
        lemma_fused_unflagged(book, depth[d]);
        lemma_fused_from_unflagged(
            depth,
            ticker,
            mode,
            d + 1,
            t,
            false,
            fused(book, depth[d]).0,
        );
    }
}

/// A file that was read.
#[derive(Clone, Copy, Debug)]
pub struct SourceFile<'a> {
    /// The name of the file.
    pub path: &'a str,
    /// The bytes of the file.
    pub content: &'a [u8],
    /// Whether the bytes are packed with gzip.
    pub compressed: bool,
}

/// What is to be converted.
#[derive(Clone, Copy, Debug)]
pub struct ConvertRequest<'a> {
    /// The trades.
    pub trades: SourceFile<'a>,
    /// The depth updates.
    pub depth: SourceFile<'a>,
    /// The best bids and offers.
    pub book_ticker: Option<SourceFile<'a>>,
    /// What becomes of the snapshots.
    pub snapshot_mode: SnapshotMode,
    /// The smallest latency, where local times have to be moved.
    pub base_latency: i64,
}

/// Why a conversion failed.
#[derive(Debug)]
pub enum ConvertError {
    /// The base latency is negative.
    NegativeBaseLatency,
    /// A feed could not be read.
    Feed(TardisError),
    /// Local timestamps are out of order.
    OutOfOrder {
        /// The file.
        path: String,
    },
    /// A corrected local timestamp exceeds the `i64` range.
    TimestampOverflow,
}

/// Why a conversion fails, apart from the texts in the error.
pub enum ConvertFault {
    /// The base latency is negative.
    NegativeBaseLatency,
    /// A feed cannot be read.
    Feed(FeedKind, FeedFault),
    /// Local timestamps are out of order.
    OutOfOrder(FeedKind),
    /// A corrected local timestamp exceeds the `i64` range.
    TimestampOverflow,
}

impl ConvertError {
    /// The error in words.
    pub open spec fn words(&self) -> Seq<char> {
        match *self {
            ConvertError::NegativeBaseLatency => "base latency must be nonnegative"@,
            ConvertError::Feed(error) => error.words(),
            ConvertError::OutOfOrder { path } => "local timestamps are out of order in "@ + path@,
            ConvertError::TimestampOverflow => "local timestamp correction exceeds i64 range"@,
        }
    }

    /// The error in words.
    pub fn message(&self) -> (r: String)
        ensures
            r@ == self.words(),
    {
        match self {
            ConvertError::NegativeBaseLatency => "base latency must be nonnegative".to_owned(),
            ConvertError::Feed(error) => error.message(),
            ConvertError::OutOfOrder { path } => {
                let mut text: String = "local timestamps are out of order in ".to_owned();
                text.append(path.as_str());
                text
            },
            ConvertError::TimestampOverflow => "local timestamp correction exceeds i64 range".to_owned(),
        }
    }
}

impl<'a> ConvertRequest<'a> {
    /// The file of a feed.
    pub open spec fn source(&self, kind: FeedKind) -> SourceFile<'a> {
        match kind {
            FeedKind::Trades => self.trades,
            FeedKind::Depth => self.depth,
            FeedKind::BookTicker => self.book_ticker->0,
        }
    }

    /// The events of a feed, or why there are none.
    pub open spec fn feed(&self, kind: FeedKind) -> Result<Seq<StoredEvent>, ConvertFault> {
        if kind == FeedKind::BookTicker && self.book_ticker is None {
            Ok(Seq::empty())
        } else {
            source_events(self.source(kind), kind)
        }
    }

    /// What the request gives, or the first reason why it gives nothing.
    pub open spec fn outcome(&self) -> Result<Seq<StoredEvent>, ConvertFault> {
        if self.base_latency < 0 {
            Err(ConvertFault::NegativeBaseLatency)
        } else {
            match self.feed(FeedKind::Trades) {
                Err(fault) => Err(fault),
                Ok(trades) => match self.feed(FeedKind::Depth) {
                    Err(fault) => Err(fault),
                    Ok(depth) => match self.feed(FeedKind::BookTicker) {
                        Err(fault) => Err(fault),
                        Ok(ticker) => converted(
                            trades,
                            depth,
                            ticker,
                            self.snapshot_mode,
                            self.base_latency,
                        ),
                    },
                },
            }
        }
    }
}

/// Whether local times do not go back.
pub open spec fn local_times_ascend(events: Seq<StoredEvent>) -> bool {
    forall|i: int, j: int|
        0 <= i < j < events.len() ==> (#[trigger] events[i]).local_ts <= (
        #[trigger] events[j]).local_ts
}

/// The events of a file, whose local times must not go back.
pub open spec fn source_events(source: SourceFile<'_>, kind: FeedKind) -> Result<
    Seq<StoredEvent>,
    ConvertFault,
> {
    match feed_events(kind, source.content@, source.compressed) {
        Err(fault) => Err(ConvertFault::Feed(kind, fault)),
        Ok(events) => if local_times_ascend(events) {
            Ok(events)
        } else {
            Err(ConvertFault::OutOfOrder(kind))
        },
    }
}

/// The trades and the fused depth, in one row that follows both clocks.
pub open spec fn converted(
    trades: Seq<StoredEvent>,
    depth: Seq<StoredEvent>,
    ticker: Seq<StoredEvent>,
    mode: SnapshotMode,
    base_latency: i64,
) -> Result<Seq<StoredEvent>, ConvertFault> {
    let all = trades + fused_from(depth, ticker, mode, 0, 0, true, empty_book());
    let offset = latency_offset(all, base_latency);
    if can_move(all, offset) {
        Ok(on_both_clocks(moved(all, offset)))
    } else {
        Err(ConvertFault::TimestampOverflow)
    }
}

/// Whether an error reports a fault, with the name of the file where one is at fault.
pub open spec fn reports(error: ConvertError, fault: ConvertFault, path: Seq<char>) -> bool {
    match error {
        ConvertError::NegativeBaseLatency => fault is NegativeBaseLatency,
        ConvertError::Feed(e) => fault matches ConvertFault::Feed(kind, f) && f == e.fault
            && e.path@ == path,
        ConvertError::OutOfOrder { path: p } => fault is OutOfOrder && p@ == path,
        ConvertError::TimestampOverflow => fault is TimestampOverflow,
    }
}

/// Whether an error of a request reports a fault.
pub open spec fn request_reports(
    request: &ConvertRequest<'_>,
    error: ConvertError,
    fault: ConvertFault,
) -> bool {
    match fault {
        ConvertFault::Feed(kind, f) => reports(error, fault, request.source(kind).path@),
        ConvertFault::OutOfOrder(kind) => reports(error, fault, request.source(kind).path@),
        _ => reports(error, fault, Seq::empty()),
    }
}

/// Reads all events of a file, whose local times must not go back.
pub fn read_events(source: &SourceFile<'_>, kind: FeedKind) -> (r: Result<
    Vec<StoredEvent>,
    ConvertError,
>)
    ensures
        match r {
            Ok(events) => source_events(*source, kind) == Ok::<Seq<StoredEvent>, ConvertFault>(
                events@,
            ),
            Err(error) => {
                &&& source_events(*source, kind) is Err
                &&& reports(error, source_events(*source, kind)->Err_0, source.path@)
                &&& source_events(*source, kind)->Err_0 matches ConvertFault::Feed(k, f) ==> k
                    == kind
                &&& source_events(*source, kind)->Err_0 matches ConvertFault::OutOfOrder(k) ==> k
                    == kind
            },
        },
{
    let events: Vec<StoredEvent> = match read_feed(
        source.path,
        kind,
        source.content,
        source.compressed,
    ) {
        Ok(events) => events,
        Err(error) => {
            return Err(ConvertError::Feed(error));
        },
    };
    let mut i: usize = 1;
    while i < events.len()
        invariant
            1 <= i,
            events@.len() > 0 ==> i <= events@.len(),
            feed_events(kind, source.content@, source.compressed) == Ok::<
                Seq<StoredEvent>,
                FeedFault,
            >(events@),
            forall|a: int, b: int|
                0 <= a < b < i && b < events@.len() ==> (#[trigger] events@[a]).local_ts <= (
                #[trigger] events@[b]).local_ts,
        decreases events@.len() - i,
    {
        if events[i - 1].local_ts > events[i].local_ts {
            assert(events@[i - 1].local_ts > events@[i as int].local_ts);
            return Err(ConvertError::OutOfOrder { path: source.path.to_owned() });
        }
        assert forall|a: int, b: int| 0 <= a < b < i + 1 && b < events@.len() implies (
        #[trigger] events@[a]).local_ts <= (#[trigger] events@[b]).local_ts by {
            if b == i && a < i - 1 {
                assert(events@[a].local_ts <= events@[i - 1].local_ts);
            }
        }
        i = i + 1;
    }
    Ok(events)
}

/// Whether every event of a feed changes a book, where it is one of depth.
proof fn lemma_row_flags(kind: FeedKind, fields: Seq<Seq<u8>>)
    ensures
        row_events(kind, fields) matches Ok(events) ==> forall|i: int|
            0 <= i < events.len() ==> unflagged(#[trigger] events[i]) && events[i].qty >= 0 && (kind
                != FeedKind::Trades ==> changes_book(events[i].ev)),
{
    assert((5u64 | 0x1000_0000) & 0xff == 5 && (5u64 | 0x2000_0000) & 0xff == 5 && (1u64
        | 0x1000_0000) & 0xff == 1 && (1u64 | 0x2000_0000) & 0xff == 1 && (4u64 | 0x1000_0000)
        & 0xff == 4 && (4u64 | 0x2000_0000) & 0xff == 4) by (bit_vector);
    assert((5u64 | 0x1000_0000) & 0x8000_0000 == 0 && (5u64 | 0x2000_0000) & 0x8000_0000 == 0 && (
    1u64 | 0x1000_0000) & 0x8000_0000 == 0 && (1u64 | 0x2000_0000) & 0x8000_0000 == 0 && (4u64
        | 0x1000_0000) & 0x8000_0000 == 0 && (4u64 | 0x2000_0000) & 0x8000_0000 == 0 && (2u64
        | 0x1000_0000) & 0x8000_0000 == 0 && (2u64 | 0x2000_0000) & 0x8000_0000 == 0)
        by (bit_vector);
    assert((5u64 | 0x1000_0000) & 0x4000_0000 == 0 && (5u64 | 0x2000_0000) & 0x4000_0000 == 0 && (
    1u64 | 0x1000_0000) & 0x4000_0000 == 0 && (1u64 | 0x2000_0000) & 0x4000_0000 == 0 && (4u64
        | 0x1000_0000) & 0x4000_0000 == 0 && (4u64 | 0x2000_0000) & 0x4000_0000 == 0 && (2u64
        | 0x1000_0000) & 0x4000_0000 == 0 && (2u64 | 0x2000_0000) & 0x4000_0000 == 0)
        by (bit_vector);
}

/// Every event of a feed carries neither clock's flag and a quantity that is not negative, and
/// changes a book where the feed is one of depth.
proof fn lemma_feed_flags(kind: FeedKind, records: Seq<Option<Seq<Seq<u8>>>>)
    ensures
        rows_events(kind, records) matches Ok(events) ==> forall|i: int|
            0 <= i < events.len() ==> unflagged(#[trigger] events[i]) && events[i].qty >= 0 && (kind
                != FeedKind::Trades ==> changes_book(events[i].ev)),
    decreases records.len(),
{
    if records.len() > 0 {
        lemma_feed_flags(kind, records.drop_last());
        if records.last() is Some {
            lemma_row_flags(kind, records.last()->0);
        }
    }
}

/// Converts complete feeds without tick-size rounding or floating-point parsing.
pub fn convert_fuse(request: ConvertRequest<'_>) -> (r: Result<Vec<StoredEvent>, ConvertError>)
    ensures
        match r {
            Ok(events) => request.outcome() == Ok::<Seq<StoredEvent>, ConvertFault>(events@),
            Err(error) => request.outcome() is Err && request_reports(
                &request,
                error,
                request.outcome()->Err_0,
            ),
        },
{
    if request.base_latency < 0 {
        return Err(ConvertError::NegativeBaseLatency);
    }
    let mut output: Vec<StoredEvent> = match read_events(&request.trades, FeedKind::Trades) {
        Ok(events) => events,
        Err(error) => {
            return Err(error);
        },
    };
    let depth: Vec<StoredEvent> = match read_events(&request.depth, FeedKind::Depth) {
        Ok(events) => events,
        Err(error) => {
            return Err(error);
        },
    };
    let ticker: Vec<StoredEvent> = match request.book_ticker {
        Some(source) => match read_events(&source, FeedKind::BookTicker) {
            Ok(events) => events,
            Err(error) => {
                return Err(error);
            },
        },
        None => Vec::new(),
    };
    proof {
        lemma_feed_flags(
            FeedKind::Depth,
            feed_records(request.depth.content@, request.depth.compressed),
        );
        if request.book_ticker is Some {
            let source = request.book_ticker->0;
            lemma_feed_flags(
                FeedKind::BookTicker,
                feed_records(source.content@, source.compressed),
            );
        }
    }
    let mut fused: Vec<StoredEvent> = fuse_events(
        depth.as_slice(),
        ticker.as_slice(),
        request.snapshot_mode,
    );
    output.append(&mut fused);
    match order_events(output, request.base_latency) {
        Some(events) => Ok(events),
        None => Err(ConvertError::TimestampOverflow),
    }
}

/// The trades of a request, and what is published of its depth.
pub open spec fn gathered(request: &ConvertRequest<'_>) -> Seq<StoredEvent> {
    request.feed(FeedKind::Trades)->Ok_0 + fused_from(
        request.feed(FeedKind::Depth)->Ok_0,
        request.feed(FeedKind::BookTicker)->Ok_0,
        request.snapshot_mode,
        0,
        0,
        true,
        empty_book(),
    )
}

/// A conversion loses no event and follows both clocks, and no event is received before it happens.
pub proof fn conversion_follows_both_clocks(request: &ConvertRequest<'_>)
    requires
        request.outcome() is Ok,
        gathered(request).len() <= usize::MAX,
    ensures
        ({
            let all = gathered(request);
            let events = moved(all, latency_offset(all, request.base_latency));
            &&& follow_both_clocks(request.outcome()->Ok_0, events)
            &&& forall|i: int|
                0 <= i < events.len() ==> (#[trigger] events[i]).local_ts >= events[i].exch_ts
        }),
{
    let trades = request.feed(FeedKind::Trades)->Ok_0;
    let depth = request.feed(FeedKind::Depth)->Ok_0;
    let ticker = request.feed(FeedKind::BookTicker)->Ok_0;
    let all = gathered(request);
    lemma_feed_flags(
        FeedKind::Trades,
        feed_records(request.trades.content@, request.trades.compressed),
    );
    lemma_feed_flags(
        FeedKind::Depth,
        feed_records(request.depth.content@, request.depth.compressed),
    );
    if request.book_ticker is Some {
        let source = request.book_ticker->0;
        lemma_feed_flags(
            FeedKind::BookTicker,
            feed_records(source.content@, source.compressed),
        );
    }
    lemma_fused_from_unflagged(depth, ticker, request.snapshot_mode, 0, 0, true, empty_book());
    let events = moved(all, latency_offset(all, request.base_latency));
    assert forall|i: int| 0 <= i < events.len() implies unflagged(#[trigger] events[i]) by {
        assert(unflagged(all[i]));
    }
    ordering_follows_both_clocks(events);
    moving_restores_causality(all, request.base_latency);
}

/// The rows of a side are those that have its flag, in their order.
proof fn lemma_side_rows(rows: Seq<StoredEvent>, side: u64)
    ensures
        side_rows(rows, side) == rows.filter(|row: StoredEvent| row.ev & side != 0),
    decreases rows.len(),
{
    reveal(Seq::filter);
    if rows.len() > 0 {
        lemma_side_rows(rows.drop_last(), side);
    }
}

/// What has a flag is among the rows of that side, and nothing else is.
pub proof fn lemma_side_rows_hold(rows: Seq<StoredEvent>, side: u64)
    ensures
        forall|i: int|
            0 <= i < rows.len() && (#[trigger] rows[i]).ev & side != 0 ==> side_rows(
                rows,
                side,
            ).contains(rows[i]),
        forall|k: int|
            0 <= k < side_rows(rows, side).len() ==> (#[trigger] side_rows(rows, side)[k]).ev & side
                != 0 && rows.contains(side_rows(rows, side)[k]),
    decreases rows.len(),
{
    let own = side_rows(rows, side);
    if rows.len() > 0 {
        let front = rows.drop_last();
        let before = side_rows(front, side);
        lemma_side_rows_hold(front, side);
        assert forall|i: int| 0 <= i < rows.len() && (#[trigger] rows[i]).ev & side
            != 0 implies own.contains(rows[i]) by {
            if i < front.len() {
                assert(front[i] == rows[i]);
                let k = choose|k: int| 0 <= k < before.len() && before[k] == rows[i];
                assert(own[k] == rows[i]);
            } else {
                assert(own[own.len() - 1] == rows[i]);
            }
        }
        assert forall|k: int| 0 <= k < own.len() implies (#[trigger] own[k]).ev & side != 0
            && rows.contains(own[k]) by {
            if k < before.len() {
                assert(own[k] == before[k]);
                let i = choose|i: int| 0 <= i < front.len() && front[i] == before[k];
                assert(rows[i] == own[k]);
            } else {
                assert(rows[rows.len() - 1] == own[k]);
            }
        }
    }
}

/// No row is farther from the other side than the farthest price, and one row has it.
proof fn lemma_farthest_price(rows: Seq<StoredEvent>, side: u64)
    requires
        rows.len() > 0,
    ensures
        forall|i: int|
            0 <= i < rows.len() ==> if side == BUY_EVENT {
                farthest_price(rows, side) <= (#[trigger] rows[i]).px
            } else {
                farthest_price(rows, side) >= rows[i].px
            },
        exists|i: int| 0 <= i < rows.len() && (#[trigger] rows[i]).px == farthest_price(rows, side),
    decreases rows.len(),
{
    if rows.len() == 1 {
        assert(rows[0].px == farthest_price(rows, side));
    } else {
        let front = rows.drop_last();
        lemma_farthest_price(front, side);
        let k = choose|k: int|
            0 <= k < front.len() && (#[trigger] front[k]).px == farthest_price(front, side);
        assert(rows[k] == front[k]);
        assert(rows[rows.len() - 1] == rows.last());
        assert forall|i: int| 0 <= i < rows.len() implies if side == BUY_EVENT {
            farthest_price(rows, side) <= (#[trigger] rows[i]).px
        } else {
            farthest_price(rows, side) >= rows[i].px
        } by {
            if i < front.len() {
                assert(front[i] == rows[i]);
            }
        }
    }
}

/// One side of a snapshot becomes a clear of that side and then its rows, in their order, with
/// nothing added and nothing left out. The price of the clear is that of a row, and no row of the
/// side is farther from the other side: no bid of the snapshot is lower, and no ask is higher. The
/// clear has the times of the first row. Where the snapshot has no row of the side, nothing comes.
pub proof fn snapshot_clear_covers_its_rows(rows: Seq<StoredEvent>, side: u64)
    requires
        side == BUY_EVENT || side == SELL_EVENT,
    ensures
        ({
            let own = rows.filter(|row: StoredEvent| row.ev & side != 0);
            let r = snapshot_side(rows, side);
            &&& (forall|i: int| 0 <= i < rows.len() ==> (#[trigger] rows[i]).ev & side == 0) ==> r
                =~= Seq::empty()
            &&& forall|i: int|
                0 <= i < rows.len() && (#[trigger] rows[i]).ev & side != 0 ==> {
                    &&& r.len() == own.len() + 1
                    &&& r.skip(1) =~= own
                    &&& r[0].ev == DEPTH_CLEAR_EVENT | side
                    &&& r[0].qty == 0
                    &&& r[0].exch_ts == own[0].exch_ts
                    &&& r[0].local_ts == own[0].local_ts
                    &&& side == BUY_EVENT ==> r[0].px <= rows[i].px
                    &&& side == SELL_EVENT ==> r[0].px >= rows[i].px
                    &&& exists|k: int|
                        0 <= k < rows.len() && (#[trigger] rows[k]).ev & side != 0 && rows[k].px
                            == r[0].px
                }
        }),
{
    let own = side_rows(rows, side);
    let r = snapshot_side(rows, side);
    lemma_side_rows(rows, side);
    lemma_side_rows_hold(rows, side);
    if own.len() > 0 {
        lemma_farthest_price(own, side);
        assert(r.skip(1) =~= own);
        let k = choose|k: int|
            0 <= k < own.len() && (#[trigger] own[k]).px == farthest_price(own, side);
        assert(own[k].ev & side != 0 && rows.contains(own[k]));
        let j = choose|j: int| 0 <= j < rows.len() && rows[j] == own[k];
        assert(rows[j].ev & side != 0 && rows[j].px == r[0].px);
        assert forall|i: int| 0 <= i < rows.len() && (#[trigger] rows[i]).ev & side != 0 implies (
        side == BUY_EVENT ==> r[0].px <= rows[i].px) && (side == SELL_EVENT ==> r[0].px
            >= rows[i].px) by {
            assert(own.contains(rows[i]));
            let m = choose|m: int| 0 <= m < own.len() && own[m] == rows[i];
            assert(own[m].px == rows[i].px);
        }
    } else {
        assert forall|i: int| 0 <= i < rows.len() implies (#[trigger] rows[i]).ev & side == 0 by {
            if rows[i].ev & side != 0 {
                assert(own.contains(rows[i]));
            }
        }
    }
}

/// Whether every row is one of a snapshot, has a quantity that is not negative, and is of exactly
/// one side.
pub open spec fn snapshot_rows(rows: Seq<StoredEvent>) -> bool {
    forall|i: int|
        0 <= i < rows.len() ==> {
            &&& is_snapshot(#[trigger] rows[i])
            &&& rows[i].qty >= 0
            &&& (rows[i].ev & BUY_EVENT != 0) != (rows[i].ev & SELL_EVENT != 0)
        }
}

/// What rows of one side, none of them beyond `limit`, do to the levels of that side.
proof fn lemma_rows_fused(
    book: BookModel,
    rows: Seq<StoredEvent>,
    buy: bool,
    limit: i64,
    px: i64,
)
    requires
        in_order(book),
        snapshot_rows(rows),
        forall|i: int|
            0 <= i < rows.len() ==> ((#[trigger] rows[i]).ev & BUY_EVENT != 0) == buy && reaches(
                buy,
                rows[i].px,
                limit,
            ),
    ensures
        ({
            let before = quantity_at(side_of(book, buy), px as int);
            let after = quantity_at(side_of(fused_all(book, rows).0, buy), px as int);
            &&& in_order(fused_all(book, rows).0)
            &&& after matches Some(qty) ==> before == after || exists|i: int|
                0 <= i < rows.len() && (#[trigger] rows[i]).px == px && rows[i].qty == qty
            &&& !reaches(buy, px, limit) ==> before == after
        }),
    decreases rows.len(),
{
    if rows.len() > 0 {
        let front = rows.drop_last();
        let last = rows.last();
        assert(rows[rows.len() - 1] == last);
        assert forall|i: int| 0 <= i < front.len() implies is_snapshot(#[trigger] front[i])
            && front[i] == rows[i] by {}
        lemma_rows_fused(book, front, buy, limit, px);
        let middle = fused_all(book, front).0;
        lemma_fused_in_order(middle, last);
        levels_come_from_updates(middle, last, buy, px);
        if px != last.px {
            one_price_of_the_side_changes(middle, last, px);
        }
        let mid = quantity_at(side_of(middle, buy), px as int);
        let after = quantity_at(side_of(fused_all(book, rows).0, buy), px as int);
        if after is Some && after != quantity_at(side_of(book, buy), px as int) {
            if mid == after {
                let i = choose|i: int|
                    0 <= i < front.len() && (#[trigger] front[i]).px == px && front[i].qty
                        == after->0;
                assert(rows[i] == front[i]);
            } else {
                assert(rows[rows.len() - 1].px == px);
            }
        }
    }
}

/// After one side of a snapshot is fused, every level of that side from the best price to the
/// farthest price of the snapshot is a row of the snapshot, with the quantity of that row. The
/// levels farther away stay as they were.
pub proof fn snapshot_replaces_the_range_it_covers(
    book: BookModel,
    rows: Seq<StoredEvent>,
    side: u64,
    px: i64,
)
    requires
        in_order(book),
        snapshot_rows(rows),
        side == BUY_EVENT || side == SELL_EVENT,
    ensures
        ({
            let buy = side == BUY_EVENT;
            let before = quantity_at(side_of(book, buy), px as int);
            let after = quantity_at(
                side_of(fused_all(book, snapshot_side(rows, side)).0, buy),
                px as int,
            );
            let covered = exists|i: int|
                0 <= i < rows.len() && (#[trigger] rows[i]).ev & side != 0 && (if buy {
                    px >= rows[i].px
                } else {
                    px <= rows[i].px
                });
            &&& covered && after is Some ==> exists|k: int|
                0 <= k < rows.len() && (#[trigger] rows[k]).ev & side != 0 && rows[k].px == px
                    && Some(rows[k].qty) == after
            &&& !covered ==> after == before
        }),
{
    let buy = side == BUY_EVENT;
    let own = side_rows(rows, side);
    let all = snapshot_side(rows, side);
    lemma_side_rows_hold(rows, side);
    if own.len() > 0 {
        let clear = snapshot_clear(own, side);
        let limit = clear.px;
        lemma_farthest_price(own, side);
        lemma_clear_flag();
        lemma_clear_side();
        lemma_fused_joined(book, seq![clear], own);
        let cleared = fused(book, clear).0;
        assert(fused_all(book, seq![clear]).0 == cleared) by {
            assert(seq![clear].drop_last() =~= Seq::empty());
            assert(fused_all(book, Seq::empty()).0 == book);
        }
        lemma_fused_in_order(book, clear);
        clears_remove_a_range(book, clear, px);
        assert forall|k: int| 0 <= k < own.len() implies is_snapshot(#[trigger] own[k])
            && own[k].qty >= 0 && (own[k].ev & BUY_EVENT != 0) != (own[k].ev & SELL_EVENT != 0) && (
        own[k].ev & BUY_EVENT != 0) == buy && reaches(buy, own[k].px, limit) by {
            assert(rows.contains(own[k]));
            let i = choose|i: int| 0 <= i < rows.len() && rows[i] == own[k];
            assert(is_snapshot(rows[i]));
        }
        lemma_rows_fused(cleared, own, buy, limit, px);
        let far = choose|k: int| 0 <= k < own.len() && (#[trigger] own[k]).px == limit;
        assert(own[far].ev & side != 0 && rows.contains(own[far]));
        let at = choose|i: int| 0 <= i < rows.len() && rows[i] == own[far];
        assert(rows[at].ev & side != 0 && rows[at].px == limit);
        let covered = exists|i: int|
            0 <= i < rows.len() && (#[trigger] rows[i]).ev & side != 0 && (if buy {
                px >= rows[i].px
            } else {
                px <= rows[i].px
            });
        let after = quantity_at(side_of(fused_all(book, all).0, buy), px as int);
        if covered {
            let i = choose|i: int|
                0 <= i < rows.len() && (#[trigger] rows[i]).ev & side != 0 && (if buy {
                    px >= rows[i].px
                } else {
                    px <= rows[i].px
                });
            assert(own.contains(rows[i]));
            let m = choose|m: int| 0 <= m < own.len() && own[m] == rows[i];
            assert(reaches(buy, own[m].px, limit));
            assert(reaches(buy, px, limit));
            assert(quantity_at(side_of(cleared, buy), px as int) is None);
            if after is Some {
                let k = choose|k: int|
                    0 <= k < own.len() && (#[trigger] own[k]).px == px && own[k].qty == after->0;
                assert(rows.contains(own[k]));
                let j = choose|j: int| 0 <= j < rows.len() && rows[j] == own[k];
                assert(rows[j].ev & side != 0 && rows[j].px == px && Some(rows[j].qty) == after);
            }
        } else {
            assert(!reaches(buy, px, limit));
        }
    } else {
        assert(fused_all(book, all).0 == book);
        assert forall|i: int| 0 <= i < rows.len() implies (#[trigger] rows[i]).ev & side == 0 by {
            if rows[i].ev & side != 0 {
                assert(own.contains(rows[i]));
            }
        }
    }
}

} // verus!
