//! What fusing and ordering complete feeds promises.
use vstd::prelude::*;

use crate::data::convert::SnapshotMode;
use crate::data::convert::all_change_book;
use crate::data::convert::both_clocks;
use crate::data::convert::can_move;
use crate::data::convert::fused_all;
use crate::data::convert::fused_from;
use crate::data::convert::is_snapshot;
use crate::data::convert::latency_offset;
use crate::data::convert::lemma_minimum_latency;
use crate::data::convert::lemma_side_rows_hold;
use crate::data::convert::lemma_snapshot_ends;
use crate::data::convert::local_times_ascend;
use crate::data::convert::moved;
use crate::data::convert::on_both_clocks;
use crate::data::convert::side_rows;
use crate::data::convert::snapshot_end;
use crate::data::convert::snapshot_events;
use crate::data::convert::snapshot_mode_of;
use crate::data::convert::snapshot_side;
use crate::data::format::StoredEvent;
use crate::data::fuse::BookModel;
use crate::data::fuse::changes_book;
use crate::data::fuse::fused;
use crate::data::fuse::published_updates_keep_the_time;
use crate::types::BUY_EVENT;
use crate::types::DEPTH_CLEAR_EVENT;
use crate::types::DEPTH_SNAPSHOT_EVENT;
use crate::types::EXCH_EVENT;
use crate::types::LOCAL_EVENT;
use crate::types::SELL_EVENT;
use crate::types::kind_of;

verus! {

/// Whether the rows of each snapshot, one behind the other, have one local time.
pub open spec fn snapshots_have_one_time(depth: Seq<StoredEvent>) -> bool {
    forall|i: int, j: int|
        0 <= i < j < depth.len() && (forall|k: int|
            i <= k <= j ==> #[trigger] is_snapshot(depth[k])) ==> (#[trigger] depth[i]).local_ts == (
        #[trigger] depth[j]).local_ts
}

/// What events of one local time give has that time.
proof fn lemma_fused_at_one_time(book: BookModel, events: Seq<StoredEvent>, time: i64)
    requires
        all_change_book(events),
        forall|i: int| 0 <= i < events.len() ==> (#[trigger] events[i]).local_ts == time,
    ensures
        forall|k: int|
            0 <= k < fused_all(book, events).1.len() ==> (#[trigger] fused_all(
                book,
                events,
            ).1[k]).local_ts == time,
    decreases events.len(),
{
    if events.len() > 0 {
        let front = events.drop_last();
        let last = events.last();
        assert(events[events.len() - 1] == last);
        assert forall|i: int| 0 <= i < front.len() implies changes_book((#[trigger] front[i]).ev)
            && front[i].local_ts == time by {
            assert(front[i] == events[i]);
        }
        lemma_fused_at_one_time(book, front, time);
        let before = fused_all(book, front);
        let r = fused(before.0, last);
        assert forall|k: int| 0 <= k < (before.1 + r.1).len() implies (#[trigger] (before.1
            + r.1)[k]).local_ts == time by {
            if k >= before.1.len() {
                published_updates_keep_the_time(before.0, last, k - before.1.len());
            }
        }
    }
}

/// The rows of a snapshot.
proof fn lemma_snapshot_run(depth: Seq<StoredEvent>, from: int, k: int)
    requires
        0 <= from <= k < snapshot_end(depth, from),
        from <= depth.len(),
    ensures
        k < depth.len(),
        is_snapshot(depth[k]),
    decreases depth.len() - from,
{
    lemma_snapshot_ends(depth, from);
    if from < k {
        lemma_snapshot_run(depth, from + 1, k);
    }
}

/// What a snapshot amounts to changes a book, and has the local times of its rows.
proof fn lemma_snapshot_times(rows: Seq<StoredEvent>, time: i64)
    requires
        all_change_book(rows),
        forall|i: int| 0 <= i < rows.len() ==> (#[trigger] rows[i]).local_ts == time,
    ensures
        all_change_book(snapshot_events(rows)),
        forall|i: int|
            0 <= i < snapshot_events(rows).len() ==> (#[trigger] snapshot_events(rows)[i]).local_ts
                == time,
{
    crate::data::convert::lemma_clear_flag();
    lemma_snapshot_side_times(rows, BUY_EVENT, time);
    lemma_snapshot_side_times(rows, SELL_EVENT, time);
}

/// One side of what a snapshot amounts to.
proof fn lemma_snapshot_side_times(rows: Seq<StoredEvent>, side: u64, time: i64)
    requires
        all_change_book(rows),
        forall|i: int| 0 <= i < rows.len() ==> (#[trigger] rows[i]).local_ts == time,
        side == BUY_EVENT || side == SELL_EVENT,
    ensures
        all_change_book(snapshot_side(rows, side)),
        forall|i: int|
            0 <= i < snapshot_side(rows, side).len() ==> (#[trigger] snapshot_side(
                rows,
                side,
            )[i]).local_ts == time,
{
    crate::data::convert::lemma_clear_flag();
    let own = side_rows(rows, side);
    lemma_side_rows_hold(rows, side);
    assert forall|k: int| 0 <= k < own.len() implies changes_book((#[trigger] own[k]).ev)
        && own[k].local_ts == time by {
        assert(rows.contains(own[k]));
        let i = choose|i: int| 0 <= i < rows.len() && rows[i] == own[k];
        assert(changes_book(rows[i].ev));
    }
    if own.len() > 0 {
        assert(changes_book(own[0].ev));
    }
}

/// What is published of the rest of two feeds follows local time, from a time on.
#[verifier::spinoff_prover]
#[verifier::rlimit(40)]
proof fn lemma_fused_from_ascends(
    depth: Seq<StoredEvent>,
    ticker: Seq<StoredEvent>,
    mode: SnapshotMode,
    d: int,
    t: int,
    at_start: bool,
    book: BookModel,
    low: i64,
)
    requires
        0 <= d <= depth.len(),
        0 <= t <= ticker.len(),
        local_times_ascend(depth),
        local_times_ascend(ticker),
        all_change_book(depth),
        all_change_book(ticker),
        snapshots_have_one_time(depth),
        d < depth.len() ==> low <= depth[d].local_ts,
        t < ticker.len() ==> low <= ticker[t].local_ts,
    ensures
        local_times_ascend(fused_from(depth, ticker, mode, d, t, at_start, book)),
        forall|i: int|
            0 <= i < fused_from(depth, ticker, mode, d, t, at_start, book).len() ==> low <= (
            #[trigger] fused_from(depth, ticker, mode, d, t, at_start, book)[i]).local_ts,
    decreases depth.len() - d + ticker.len() - t,
{
    if d == depth.len() && t == ticker.len() {
    } else if t < ticker.len() && (d == depth.len() || ticker[t].local_ts < depth[d].local_ts) {
        let r = fused(book, ticker[t]);
        let time = ticker[t].local_ts;
        assert forall|k: int| 0 <= k < r.1.len() implies (#[trigger] r.1[k]).local_ts == time by {
            assert(changes_book(ticker[t].ev));
            published_updates_keep_the_time(book, ticker[t], k);
        }
        if t + 1 < ticker.len() {
            assert(ticker[t].local_ts <= ticker[t + 1].local_ts);
        }
        lemma_fused_from_ascends(depth, ticker, mode, d, t + 1, at_start, r.0, time);
        lemma_joined_ascends(
            r.1,
            fused_from(depth, ticker, mode, d, t + 1, at_start, r.0),
            low,
            time,
        );
    } else if is_snapshot(depth[d]) {
        lemma_snapshot_ends(depth, d);
        let end = snapshot_end(depth, d);
        let rows = depth.subrange(d, end);
        let time = depth[d].local_ts;
        let r = fused_all(book, snapshot_events(rows));
        assert forall|i: int| 0 <= i < rows.len() implies changes_book((#[trigger] rows[i]).ev)
            && rows[i].local_ts == time by {
            assert(rows[i] == depth[d + i]);
            if i > 0 {
                assert forall|k: int| d <= k <= d + i implies #[trigger] is_snapshot(
                    depth[k],
                ) by {
                    lemma_snapshot_run(depth, d, k);
                }
                assert(depth[d].local_ts == depth[d + i].local_ts);
            }
            assert(changes_book(depth[d + i].ev));
        }
        lemma_snapshot_times(rows, time);
        lemma_fused_at_one_time(book, snapshot_events(rows), time);
        if end < depth.len() {
            assert(depth[d].local_ts <= depth[end].local_ts);
        }
        lemma_fused_from_ascends(depth, ticker, mode, end, t, false, r.0, time);
        let rest = fused_from(depth, ticker, mode, end, t, false, r.0);
        lemma_joined_ascends(r.1, rest, low, time);
        lemma_joined_ascends(Seq::empty(), rest, low, time);
    } else {
        let r = fused(book, depth[d]);
        let time = depth[d].local_ts;
        assert forall|k: int| 0 <= k < r.1.len() implies (#[trigger] r.1[k]).local_ts == time by {
            assert(changes_book(depth[d].ev));
            published_updates_keep_the_time(book, depth[d], k);
        }
        if d + 1 < depth.len() {
            assert(depth[d].local_ts <= depth[d + 1].local_ts);
        }
        lemma_fused_from_ascends(depth, ticker, mode, d + 1, t, false, r.0, time);
        lemma_joined_ascends(
            r.1,
            fused_from(depth, ticker, mode, d + 1, t, false, r.0),
            low,
            time,
        );
    }
}

/// Events of one time in front of events that follow local time from that time on.
proof fn lemma_joined_ascends(a: Seq<StoredEvent>, b: Seq<StoredEvent>, low: i64, time: i64)
    requires
        low <= time,
        forall|k: int| 0 <= k < a.len() ==> (#[trigger] a[k]).local_ts == time,
        forall|k: int| 0 <= k < b.len() ==> time <= (#[trigger] b[k]).local_ts,
        local_times_ascend(b),
    ensures
        local_times_ascend(a + b),
        forall|k: int| 0 <= k < (a + b).len() ==> low <= (#[trigger] (a + b)[k]).local_ts,
{
    let s = a + b;
    assert forall|i: int, j: int| 0 <= i < j < s.len() implies (#[trigger] s[i]).local_ts <= (
    #[trigger] s[j]).local_ts by {
        if i >= a.len() {
            assert(b[i - a.len()].local_ts <= b[j - a.len()].local_ts);
        }
    }
}

/// Fusing two feeds that each follow local time gives a row that follows local time: the feeds are
/// merged by it. This is stated where the rows of each snapshot have one local time.
pub proof fn fused_feeds_follow_local_time(
    depth: Seq<StoredEvent>,
    ticker: Seq<StoredEvent>,
    mode: SnapshotMode,
    book: BookModel,
)
    requires
        local_times_ascend(depth),
        local_times_ascend(ticker),
        all_change_book(depth),
        all_change_book(ticker),
        snapshots_have_one_time(depth),
    ensures
        local_times_ascend(fused_from(depth, ticker, mode, 0, 0, true, book)),
{
    lemma_fused_from_ascends(depth, ticker, mode, 0, 0, true, book, i64::MIN);
}

/// A feed that is fused alone, without a snapshot in it, is fused event by event, and nothing of it
/// is left out.
pub proof fn feeds_are_fused_event_by_event(
    events: Seq<StoredEvent>,
    mode: SnapshotMode,
    at_start: bool,
    book: BookModel,
)
    requires
        forall|i: int| 0 <= i < events.len() ==> !is_snapshot(#[trigger] events[i]),
    ensures
        fused_from(events, Seq::empty(), mode, 0, 0, at_start, book) =~= fused_all(book, events).1,
        fused_from(Seq::empty(), events, mode, 0, 0, at_start, book) =~= fused_all(book, events).1,
{
    assert(events.take(0) =~= Seq::empty());
    lemma_fused_rest(events, mode, at_start, book, 0);
}

/// What is published of the rest of one feed.
proof fn lemma_fused_rest(
    events: Seq<StoredEvent>,
    mode: SnapshotMode,
    at_start: bool,
    book: BookModel,
    k: int,
)
    requires
        0 <= k <= events.len(),
        forall|i: int| 0 <= i < events.len() ==> !is_snapshot(#[trigger] events[i]),
    ensures
        ({
            let before = fused_all(book, events.take(k));
            &&& before.1 + fused_from(events, Seq::empty(), mode, k, 0, at_start, before.0)
                =~= fused_all(book, events).1
            &&& before.1 + fused_from(Seq::empty(), events, mode, 0, k, at_start, before.0)
                =~= fused_all(book, events).1
        }),
    decreases events.len() - k,
{
    let before = fused_all(book, events.take(k));
    if k == events.len() {
        assert(events.take(k) =~= events);
    } else {
        assert(events.take(k + 1).drop_last() =~= events.take(k));
        assert(events.take(k + 1).last() == events[k]);
        assert(!is_snapshot(events[k]));
        let r = fused(before.0, events[k]);
        lemma_fused_rest(events, mode, at_start, book, k + 1);
        lemma_fused_rest(events, mode, false, book, k + 1);
        let a = fused_from(events, Seq::empty(), mode, k + 1, 0, false, r.0);
        let b = fused_from(Seq::empty(), events, mode, 0, k + 1, at_start, r.0);
        assert(before.1 + (r.1 + a) =~= before.1 + r.1 + a);
        assert(before.1 + (r.1 + b) =~= before.1 + r.1 + b);
    }
}

/// Of an event of the depth and a best bid and offer with the same local time, the depth comes
/// first; an earlier one of either feed comes first too.
pub proof fn depth_comes_first_on_ties(
    depth: Seq<StoredEvent>,
    ticker: Seq<StoredEvent>,
    mode: SnapshotMode,
    at_start: bool,
    book: BookModel,
    d: int,
    t: int,
)
    requires
        0 <= d < depth.len(),
        0 <= t < ticker.len(),
        !is_snapshot(depth[d]),
    ensures
        depth[d].local_ts <= ticker[t].local_ts ==> fused_from(
            depth,
            ticker,
            mode,
            d,
            t,
            at_start,
            book,
        ) =~= fused(book, depth[d]).1 + fused_from(
            depth,
            ticker,
            mode,
            d + 1,
            t,
            false,
            fused(book, depth[d]).0,
        ),
        depth[d].local_ts > ticker[t].local_ts ==> fused_from(
            depth,
            ticker,
            mode,
            d,
            t,
            at_start,
            book,
        ) =~= fused(book, ticker[t]).1 + fused_from(
            depth,
            ticker,
            mode,
            d,
            t + 1,
            at_start,
            fused(book, ticker[t]).0,
        ),
{
}

/// Whether no event is a row of a snapshot or a clear.
pub open spec fn without_snapshots(events: Seq<StoredEvent>) -> bool {
    forall|i: int|
        0 <= i < events.len() ==> kind_of((#[trigger] events[i]).ev) != DEPTH_SNAPSHOT_EVENT
            && kind_of(events[i].ev) != DEPTH_CLEAR_EVENT
}

/// What is published of an event that is neither a row of a snapshot nor a clear is neither.
proof fn lemma_published_kind(book: BookModel, event: StoredEvent)
    requires
        changes_book(event.ev),
        kind_of(event.ev) != DEPTH_SNAPSHOT_EVENT,
        kind_of(event.ev) != DEPTH_CLEAR_EVENT,
    ensures
        without_snapshots(fused(book, event).1),
{
    let r = fused(book, event).1;
    assert forall|i: int| 0 <= i < r.len() implies kind_of((#[trigger] r[i]).ev)
        != DEPTH_SNAPSHOT_EVENT && kind_of(r[i].ev) != DEPTH_CLEAR_EVENT by {
        published_updates_keep_the_time(book, event, i);
    }
}

/// Where snapshots are ignored, nothing of them is published: no row of a snapshot and no clear.
pub proof fn ignored_snapshots_are_not_published(
    depth: Seq<StoredEvent>,
    ticker: Seq<StoredEvent>,
    d: int,
    t: int,
    at_start: bool,
    book: BookModel,
)
    requires
        0 <= d <= depth.len(),
        0 <= t <= ticker.len(),
        all_change_book(depth),
        all_change_book(ticker),
        without_snapshots(ticker),
        forall|i: int|
            0 <= i < depth.len() ==> kind_of((#[trigger] depth[i]).ev) != DEPTH_CLEAR_EVENT,
    ensures
        without_snapshots(
            fused_from(depth, ticker, SnapshotMode::Ignore, d, t, at_start, book),
        ),
    decreases depth.len() - d + ticker.len() - t,
{
    let mode = SnapshotMode::Ignore;
    if d == depth.len() && t == ticker.len() {
    } else if t < ticker.len() && (d == depth.len() || ticker[t].local_ts < depth[d].local_ts) {
        let r = fused(book, ticker[t]);
        assert(changes_book(ticker[t].ev));
        lemma_published_kind(book, ticker[t]);
        ignored_snapshots_are_not_published(depth, ticker, d, t + 1, at_start, r.0);
        lemma_joined_kinds(r.1, fused_from(depth, ticker, mode, d, t + 1, at_start, r.0));
    } else if is_snapshot(depth[d]) {
        lemma_snapshot_ends(depth, d);
        let end = snapshot_end(depth, d);
        let r = fused_all(book, snapshot_events(depth.subrange(d, end)));
        ignored_snapshots_are_not_published(depth, ticker, end, t, false, r.0);
        lemma_joined_kinds(Seq::empty(), fused_from(depth, ticker, mode, end, t, false, r.0));
    } else {
        let r = fused(book, depth[d]);
        assert(changes_book(depth[d].ev));
        lemma_published_kind(book, depth[d]);
        ignored_snapshots_are_not_published(depth, ticker, d + 1, t, false, r.0);
        lemma_joined_kinds(r.1, fused_from(depth, ticker, mode, d + 1, t, false, r.0));
    }
}

/// Two rows without snapshots, one behind the other.
proof fn lemma_joined_kinds(a: Seq<StoredEvent>, b: Seq<StoredEvent>)
    requires
        without_snapshots(a),
        without_snapshots(b),
    ensures
        without_snapshots(a + b),
{
    let s = a + b;
    assert forall|i: int| 0 <= i < s.len() implies kind_of((#[trigger] s[i]).ev)
        != DEPTH_SNAPSHOT_EVENT && kind_of(s[i].ev) != DEPTH_CLEAR_EVENT by {
        if i < a.len() {
            assert(s[i] == a[i]);
        } else {
            assert(s[i] == b[i - a.len()]);
        }
    }
}

/// Once the start of the feed is over, ignoring the snapshot at the start is no different from
/// publishing all, and publishing all does not depend on the start.
pub proof fn only_the_first_snapshot_is_at_the_start(
    depth: Seq<StoredEvent>,
    ticker: Seq<StoredEvent>,
    d: int,
    t: int,
    at_start: bool,
    book: BookModel,
)
    requires
        0 <= d <= depth.len(),
        0 <= t <= ticker.len(),
    ensures
        fused_from(depth, ticker, SnapshotMode::IgnoreSod, d, t, false, book) =~= fused_from(
            depth,
            ticker,
            SnapshotMode::Process,
            d,
            t,
            at_start,
            book,
        ),
        d < depth.len() && !is_snapshot(depth[d]) ==> fused_from(
            depth,
            ticker,
            SnapshotMode::IgnoreSod,
            d,
            t,
            at_start,
            book,
        ) =~= fused_from(depth, ticker, SnapshotMode::Process, d, t, at_start, book),
    decreases depth.len() - d + ticker.len() - t,
{
    if d == depth.len() && t == ticker.len() {
    } else if t < ticker.len() && (d == depth.len() || ticker[t].local_ts < depth[d].local_ts) {
        let r = fused(book, ticker[t]);
        only_the_first_snapshot_is_at_the_start(depth, ticker, d, t + 1, at_start, r.0);
    } else if is_snapshot(depth[d]) {
        lemma_snapshot_ends(depth, d);
        let end = snapshot_end(depth, d);
        let r = fused_all(book, snapshot_events(depth.subrange(d, end)));
        only_the_first_snapshot_is_at_the_start(depth, ticker, end, t, false, r.0);
    } else {
        let r = fused(book, depth[d]);
        only_the_first_snapshot_is_at_the_start(depth, ticker, d + 1, t, false, r.0);
    }
}

/// A snapshot at the start of a feed that is fused alone is published whole where snapshots are
/// published, its bids before its asks, and not at all where the one at the start is ignored; what
/// follows is the same in both cases.
pub proof fn the_first_snapshot_is_published_or_not(
    depth: Seq<StoredEvent>,
    book: BookModel,
    end: int,
)
    requires
        0 < end <= depth.len(),
        forall|i: int| 0 <= i < end ==> is_snapshot(#[trigger] depth[i]),
        end < depth.len() ==> !is_snapshot(depth[end]),
    ensures
        ({
            let rows = depth.take(end);
            let whole = fused_all(
                book,
                snapshot_side(rows, BUY_EVENT) + snapshot_side(rows, SELL_EVENT),
            );
            let none = Seq::<StoredEvent>::empty();
            fused_from(depth, none, SnapshotMode::Process, 0, 0, true, book) =~= whole.1
                + fused_from(depth, none, SnapshotMode::IgnoreSod, 0, 0, true, book)
        }),
{
    crate::data::convert::lemma_snapshot_end(depth, 0, end);
    assert(depth.subrange(0, end) =~= depth.take(end));
    assert(is_snapshot(depth[0]));
    let rows = depth.take(end);
    let none = Seq::<StoredEvent>::empty();
    let whole = fused_all(book, snapshot_events(rows));
    only_the_first_snapshot_is_at_the_start(depth, none, end, 0, false, whole.0);
    let rest = fused_from(depth, none, SnapshotMode::IgnoreSod, end, 0, false, whole.0);
    assert(Seq::<StoredEvent>::empty() + rest =~= rest);
}

/// The three words for the treatment of snapshots, and no others.
pub proof fn snapshot_modes_have_their_words(word: Seq<char>)
    ensures
        snapshot_mode_of("process"@) == Some(SnapshotMode::Process),
        snapshot_mode_of("ignore"@) == Some(SnapshotMode::Ignore),
        snapshot_mode_of("ignore_sod"@) == Some(SnapshotMode::IgnoreSod),
        word != "process"@ && word != "ignore"@ && word != "ignore_sod"@ ==> snapshot_mode_of(word)
            is None,
{
    reveal_strlit("process");
    reveal_strlit("ignore");
    reveal_strlit("ignore_sod");
    assert("process"@.len() == 7);
    assert("ignore"@.len() == 6);
    assert("ignore_sod"@.len() == 10);
}

/// Moving local times moves all of them alike and nothing else. Where no event is received before it
/// happens nothing is moved; otherwise every latency becomes at least the base latency, and one of
/// them becomes just that.
pub proof fn local_times_move_together(events: Seq<StoredEvent>, base_latency: i64, i: int, j: int)
    requires
        0 <= i < events.len(),
        0 <= j < events.len(),
        can_move(events, latency_offset(events, base_latency)),
    ensures
        ({
            let after = moved(events, latency_offset(events, base_latency));
            &&& after.len() == events.len()
            &&& after[i] == (StoredEvent { local_ts: after[i].local_ts, ..events[i] })
            &&& after[i].local_ts - events[i].local_ts == after[j].local_ts - events[j].local_ts
            &&& (forall|k: int|
                0 <= k < events.len() ==> (#[trigger] events[k]).local_ts >= events[k].exch_ts)
                ==> after[i] == events[i]
            &&& events[j].local_ts < events[j].exch_ts ==> after[i].local_ts - after[i].exch_ts
                >= base_latency && exists|k: int|
                0 <= k < after.len() && (#[trigger] after[k]).local_ts - after[k].exch_ts
                    == base_latency
        }),
{
    let offset = latency_offset(events, base_latency);
    let after = moved(events, offset);
    lemma_minimum_latency(events);
    assert(i64::MIN <= events[i].local_ts + offset <= i64::MAX);
    assert(i64::MIN <= events[j].local_ts + offset <= i64::MAX);
    let k = choose|k: int|
        0 <= k < events.len() && (#[trigger] events[k]).local_ts - events[k].exch_ts
            == crate::data::convert::minimum_latency(events);
    assert(i64::MIN <= events[k].local_ts + offset <= i64::MAX);
    assert(after[k].local_ts == events[k].local_ts + offset);
}

/// An event that comes next on both clocks is one row with both flags. Of two events of which each
/// comes next on one clock, the one that happened earlier is the next row, then the one that was
/// received earlier, then the one that stood first; it has the flag of its clock alone.
pub proof fn rows_carry_the_clocks_they_follow(
    events: Seq<StoredEvent>,
    exchange: Seq<usize>,
    local: Seq<usize>,
    e: int,
    l: int,
)
    requires
        0 <= e < exchange.len(),
        0 <= l < local.len(),
    ensures
        ({
            let rows = both_clocks(events, exchange, local, e, l);
            let x = events[exchange[e] as int];
            let y = events[local[l] as int];
            let exchange_first = x.exch_ts < y.exch_ts || (x.exch_ts == y.exch_ts && x.local_ts
                < y.local_ts) || (x.exch_ts == y.exch_ts && x.local_ts == y.local_ts && exchange[e]
                < local[l]);
            &&& exchange[e] == local[l] ==> rows[0] == (StoredEvent {
                ev: x.ev | (EXCH_EVENT | LOCAL_EVENT),
                ..x
            }) && rows.skip(1) =~= both_clocks(events, exchange, local, e + 1, l + 1)
            &&& exchange[e] != local[l] && exchange_first ==> rows[0] == (StoredEvent {
                ev: x.ev | EXCH_EVENT,
                ..x
            }) && rows.skip(1) =~= both_clocks(events, exchange, local, e + 1, l)
            &&& exchange[e] != local[l] && !exchange_first ==> rows[0] == (StoredEvent {
                ev: y.ev | LOCAL_EVENT,
                ..y
            }) && rows.skip(1) =~= both_clocks(events, exchange, local, e, l + 1)
        }),
{
}

} // verus!
