//! Fuses depth updates and best bid and offer updates into one stream of depth updates.
use vstd::prelude::*;

use crate::data::format::StoredEvent;
use crate::sorted_map::below;
use crate::sorted_map::holds;
use crate::sorted_map::inserted;
use crate::sorted_map::lemma_below_splits;
use crate::sorted_map::lemma_drop_below;
use crate::sorted_map::lemma_inserted;
use crate::sorted_map::lemma_keep_below;
use crate::sorted_map::lemma_lookup_entry;
use crate::sorted_map::lemma_ordered_part;
use crate::sorted_map::lemma_removed;
use crate::sorted_map::lookup;
use crate::sorted_map::ordered;
use crate::sorted_map::removed;
use crate::sorted_map::Ranked;
use crate::sorted_map::SortedMap;
use crate::types::kind_of;
use crate::types::BUY_EVENT;
use crate::types::DEPTH_BBO_EVENT;
use crate::types::DEPTH_CLEAR_EVENT;
use crate::types::DEPTH_EVENT;
use crate::types::DEPTH_SNAPSHOT_EVENT;
use crate::types::SELL_EVENT;

verus! {

/// What is offered at one price.
#[derive(Clone, Copy, Debug, PartialEq, Eq, Structural)]
pub struct Level {
    /// The quantity.
    pub qty: i64,
    /// When it was last updated.
    pub timestamp: i64,
}

/// One side of the book.
#[derive(Debug)]
pub struct BookSide {
    /// The levels by price.
    pub levels: SortedMap<i64, Level>,
    /// When the best price was last confirmed.
    pub best_timestamp: i64,
}

/// What one side of the book holds.
#[verifier::ext_equal]
pub struct SideModel {
    /// The levels, in ascending order of their prices.
    pub levels: Seq<(i64, Level)>,
    /// When the best price was last confirmed.
    pub best_timestamp: i64,
}

/// What both sides of the book hold.
#[verifier::ext_equal]
pub struct BookModel {
    /// The bid side.
    pub bids: SideModel,
    /// The ask side.
    pub asks: SideModel,
}

impl View for BookSide {
    type V = SideModel;

    open spec fn view(&self) -> SideModel {
        SideModel { levels: self.levels@, best_timestamp: self.best_timestamp }
    }
}

impl SideModel {
    /// The best price: the highest bid or the lowest ask.
    pub open spec fn best(self, buy: bool) -> Option<i64> {
        if self.levels.len() == 0 {
            None
        } else if buy {
            Some(self.levels.last().0)
        } else {
            Some(self.levels.first().0)
        }
    }

    /// This side without the levels that a trade at `px` on the other side would cross: those of
    /// this side, `buy` or not, that are at `px` or better.
    pub open spec fn without_crossed(self, buy: bool, px: i64) -> SideModel {
        SideModel {
            levels: if buy {
                self.levels.take(below(self.levels, px as int))
            } else {
                self.levels.skip(below(self.levels, px + 1))
            },
            ..self
        }
    }

    /// The levels that a trade at `px` on the other side would cross.
    pub open spec fn crossed(self, buy: bool, px: i64) -> Seq<(i64, Level)> {
        if buy {
            self.levels.skip(below(self.levels, px as int))
        } else {
            self.levels.take(below(self.levels, px + 1))
        }
    }

    /// This side without the levels that are better than `px`.
    pub open spec fn without_better(self, buy: bool, px: i64) -> SideModel {
        SideModel {
            levels: if buy {
                self.levels.take(below(self.levels, px + 1))
            } else {
                self.levels.skip(below(self.levels, px as int))
            },
            ..self
        }
    }

    /// The levels that are better than `px`.
    pub open spec fn better(self, buy: bool, px: i64) -> Seq<(i64, Level)> {
        if buy {
            self.levels.skip(below(self.levels, px + 1))
        } else {
            self.levels.take(below(self.levels, px as int))
        }
    }

    /// This side with the best price confirmed at `timestamp`.
    pub open spec fn confirmed(self, timestamp: i64) -> SideModel {
        SideModel { best_timestamp: timestamp, ..self }
    }
}

/// Whether a price is at least as good as another on its side.
pub open spec fn reaches(buy: bool, px: i64, other: i64) -> bool {
    if buy {
        px >= other
    } else {
        px <= other
    }
}

/// The kinds of event that change a book.
pub open spec fn changes_book(ev: u64) -> bool {
    kind_of(ev) == DEPTH_CLEAR_EVENT || kind_of(ev) == DEPTH_EVENT || kind_of(ev)
        == DEPTH_SNAPSHOT_EVENT || kind_of(ev) == DEPTH_BBO_EVENT
}

/// The flag of a depth update on one side.
pub open spec fn depth_flag(buy: bool) -> u64 {
    DEPTH_EVENT | if buy {
        BUY_EVENT
    } else {
        SELL_EVENT
    }
}

/// The updates that say that levels are gone, in the order of their prices.
pub open spec fn removals(levels: Seq<(i64, Level)>, buy: bool, source: StoredEvent) -> Seq<
    StoredEvent,
> {
    Seq::new(
        levels.len(),
        |i: int|
            StoredEvent {
                ev: depth_flag(buy),
                px: levels[i].0,
                qty: 0,
                exch_ts: source.exch_ts,
                local_ts: source.local_ts,
            },
    )
}

/// What a clear leaves. It reaches from the best price to `px`, on one side or on both.
pub open spec fn cleared(book: BookModel, event: StoredEvent) -> BookModel {
    if event.ev & BUY_EVENT != 0 {
        BookModel {
            bids: book.bids.without_crossed(true, event.px).confirmed(event.exch_ts),
            asks: book.asks,
        }
    } else if event.ev & SELL_EVENT != 0 {
        BookModel {
            bids: book.bids,
            asks: book.asks.without_crossed(false, event.px).confirmed(event.exch_ts),
        }
    } else {
        BookModel {
            bids: SideModel { levels: Seq::empty(), best_timestamp: event.exch_ts },
            asks: SideModel { levels: Seq::empty(), best_timestamp: event.exch_ts },
        }
    }
}

/// Whether an update reaches the best price of its own side.
pub open spec fn touches_best(own: SideModel, buy: bool, px: i64) -> bool {
    match own.best(buy) {
        None => true,
        Some(best) => reaches(buy, px, best),
    }
}

/// Whether an update crosses the best price of the other side.
pub open spec fn crosses(opposite: SideModel, buy: bool, px: i64) -> bool {
    match opposite.best(!buy) {
        None => false,
        Some(best) => reaches(buy, px, best),
    }
}

/// Whether an update is older than what the book already knows of the prices that it speaks of.
pub open spec fn stale(own: SideModel, opposite: SideModel, buy: bool, event: StoredEvent) -> bool {
    ||| (kind_of(event.ev) == DEPTH_BBO_EVENT || touches_best(own, buy, event.px)) && event.exch_ts
        < own.best_timestamp
    ||| crosses(opposite, buy, event.px) && event.exch_ts < opposite.best_timestamp
    ||| lookup(own.levels, event.px as int) matches Some(level) && event.exch_ts < level.timestamp
}

/// The event as it is published: a best bid or offer becomes a depth update.
pub open spec fn published(event: StoredEvent) -> StoredEvent {
    if kind_of(event.ev) == DEPTH_BBO_EVENT {
        StoredEvent { ev: (event.ev & !0xff) | DEPTH_EVENT, ..event }
    } else {
        event
    }
}

/// Whether a best bid or offer says what the book already holds.
pub open spec fn confirms(own: SideModel, buy: bool, event: StoredEvent) -> bool {
    &&& kind_of(event.ev) == DEPTH_BBO_EVENT
    &&& own.best(buy) == Some(event.px)
    &&& lookup(own.levels, event.px as int) matches Some(level) && level.qty == event.qty
}

/// The levels of a side after a quantity was set at a price; a quantity of zero removes the level.
pub open spec fn with_level(levels: Seq<(i64, Level)>, event: StoredEvent) -> Seq<(i64, Level)> {
    if event.qty == 0 {
        removed(levels, event.px as int)
    } else {
        inserted(levels, event.px, Level { qty: event.qty, timestamp: event.exch_ts })
    }
}

/// What an update does that is neither stale nor a mere confirmation: the own side, the other side
/// and the published updates.
pub open spec fn applied(
    own: SideModel,
    opposite: SideModel,
    buy: bool,
    event: StoredEvent,
) -> (SideModel, SideModel, Seq<StoredEvent>) {
    let bbo = kind_of(event.ev) == DEPTH_BBO_EVENT;
    let output = published(event);
    let changed = SideModel {
        levels: with_level(own.levels, event),
        best_timestamp: if bbo || touches_best(own, buy, event.px) {
            event.exch_ts
        } else {
            own.best_timestamp
        },
    };
    let own_update = if holds(own.levels, event.px as int) || event.qty > 0 {
        seq![output]
    } else {
        Seq::empty()
    };
    let crossing = event.qty > 0 && crosses(opposite, buy, event.px);
    let opposite_after = if crossing {
        opposite.without_crossed(!buy, event.px).confirmed(event.exch_ts)
    } else {
        opposite
    };
    let opposite_updates = if crossing {
        removals(opposite.crossed(!buy, event.px), !buy, output)
    } else {
        Seq::empty()
    };
    let own_after = if bbo {
        changed.without_better(buy, event.px)
    } else {
        changed
    };
    let better_updates = if bbo {
        removals(changed.better(buy, event.px), buy, output)
    } else {
        Seq::empty()
    };
    (own_after, opposite_after, own_update + opposite_updates + better_updates)
}

/// What an update does to its own side and to the other one, and what is published of it.
pub open spec fn updated(
    own: SideModel,
    opposite: SideModel,
    buy: bool,
    event: StoredEvent,
) -> (SideModel, SideModel, Seq<StoredEvent>) {
    if stale(own, opposite, buy, event) {
        (own, opposite, Seq::empty())
    } else if confirms(own, buy, event) {
        (own.confirmed(event.exch_ts), opposite, Seq::empty())
    } else {
        applied(own, opposite, buy, event)
    }
}

/// What an event does to the book, and what is published of it.
pub open spec fn fused(book: BookModel, event: StoredEvent) -> (BookModel, Seq<StoredEvent>) {
    if kind_of(event.ev) == DEPTH_CLEAR_EVENT {
        (cleared(book, event), seq![event])
    } else if event.ev & BUY_EVENT != 0 {
        let r = updated(book.bids, book.asks, true, event);
        (BookModel { bids: r.0, asks: r.1 }, r.2)
    } else {
        let r = updated(book.asks, book.bids, false, event);
        (BookModel { bids: r.1, asks: r.0 }, r.2)
    }
}

impl BookSide {
    /// Whether the levels are in order.
    pub open spec fn wf(&self) -> bool {
        self.levels.wf()
    }

    /// An empty side.
    fn new() -> (r: BookSide)
        ensures
            r.wf(),
            r@ == (SideModel { levels: Seq::empty(), best_timestamp: 0 }),
    {
        BookSide { levels: SortedMap::new(), best_timestamp: 0 }
    }

    /// The best price.
    fn best(&self, buy: bool) -> (r: Option<i64>)
        ensures
            r == self@.best(buy),
    {
        let len: usize = self.levels.entries.len();
        if len == 0 {
            None
        } else if buy {
            Some(self.levels.entries[len - 1].0)
        } else {
            Some(self.levels.entries[0].0)
        }
    }

    /// Removes the levels at `px` or better, and says so in `output` where it is given.
    fn remove_crossed(
        &mut self,
        buy: bool,
        px: i64,
        source: &StoredEvent,
        output: &mut Vec<StoredEvent>,
    )
        requires
            old(self).wf(),
        ensures
            final(self).wf(),
            final(self)@ == old(self)@.without_crossed(buy, px),
            final(output)@ == old(output)@ + removals(old(self)@.crossed(buy, px), buy, *source),
    {
        if buy {
            let from: usize = self.levels.lower(&px);
            let to: usize = self.levels.len();
            self.publish_removals(from, to, buy, source, output);
            self.levels.keep_first(from);
        } else {
            let to: usize = self.levels.upper(&px);
            self.publish_removals(0, to, buy, source, output);
            self.levels.drop_first(to);
        }
    }

    /// Removes the levels that are better than `px`, and says so in `output`.
    fn remove_better(
        &mut self,
        buy: bool,
        px: i64,
        source: &StoredEvent,
        output: &mut Vec<StoredEvent>,
    )
        requires
            old(self).wf(),
        ensures
            final(self).wf(),
            final(self)@ == old(self)@.without_better(buy, px),
            final(output)@ == old(output)@ + removals(old(self)@.better(buy, px), buy, *source),
    {
        if buy {
            let from: usize = self.levels.upper(&px);
            let to: usize = self.levels.len();
            self.publish_removals(from, to, buy, source, output);
            self.levels.keep_first(from);
        } else {
            let to: usize = self.levels.lower(&px);
            self.publish_removals(0, to, buy, source, output);
            self.levels.drop_first(to);
        }
    }

    /// Says in `output` that the levels between two places are gone.
    fn publish_removals(
        &self,
        from: usize,
        to: usize,
        buy: bool,
        source: &StoredEvent,
        output: &mut Vec<StoredEvent>,
    )
        requires
            from <= to <= self.levels@.len(),
        ensures
            final(output)@ == old(output)@ + removals(
                self.levels@.subrange(from as int, to as int),
                buy,
                *source,
            ),
            to == self.levels@.len() ==> self.levels@.subrange(from as int, to as int)
                == self.levels@.skip(from as int),
            from == 0 ==> self.levels@.subrange(from as int, to as int) == self.levels@.take(
                to as int,
            ),
    {
        let ghost levels = self.levels@.subrange(from as int, to as int);
        let mut i: usize = from;
        while i < to
            invariant
                from <= i <= to <= self.levels@.len(),
                levels == self.levels@.subrange(from as int, to as int),
                output@ =~= old(output)@ + removals(levels, buy, *source).take(i - from),
            decreases to - i,
        {
            let px: i64 = self.levels.entries[i].0;
            output.push(
                StoredEvent {
                    ev: DEPTH_EVENT | if buy {
                        BUY_EVENT
                    } else {
                        SELL_EVENT
                    },
                    px,
                    qty: 0,
                    exch_ts: source.exch_ts,
                    local_ts: source.local_ts,
                },
            );
            assert(levels[i - from] == self.levels@[i as int]);
            i = i + 1;
        }
        assert(removals(levels, buy, *source).take(to - from) =~= removals(levels, buy, *source));
        assert(to == self.levels@.len() ==> levels =~= self.levels@.skip(from as int));
        assert(from == 0 ==> levels =~= self.levels@.take(to as int));
    }
}

/// Applies an update of one side.
fn update_side(own: &mut BookSide, opposite: &mut BookSide, buy: bool, event: StoredEvent) -> (r:
    Vec<StoredEvent>)
    requires
        old(own).wf(),
        old(opposite).wf(),
    ensures
        final(own).wf(),
        final(opposite).wf(),
        (final(own)@, final(opposite)@, r@) == updated(old(own)@, old(opposite)@, buy, event),
{
    let bbo: bool = event.ev & 0xff == DEPTH_BBO_EVENT;
    let best: Option<i64> = own.best(buy);
    let opposite_best: Option<i64> = opposite.best(!buy);
    let touches: bool = match best {
        None => true,
        Some(px) => if buy {
            event.px >= px
        } else {
            event.px <= px
        },
    };
    let crossing: bool = match opposite_best {
        None => false,
        Some(px) => if buy {
            event.px >= px
        } else {
            event.px <= px
        },
    };
    let known: Option<Level> = match own.levels.get(&event.px) {
        Some(level) => Some(*level),
        None => None,
    };
    let outdated: bool = match known {
        Some(level) => event.exch_ts < level.timestamp,
        None => false,
    };
    if ((bbo || touches) && event.exch_ts < own.best_timestamp) || (crossing && event.exch_ts
        < opposite.best_timestamp) || outdated {
        return Vec::new();
    }
    let mut output_event: StoredEvent = event;
    if bbo {
        output_event.ev = (event.ev & !0xff) | DEPTH_EVENT;
        let at_best: bool = match best {
            Some(px) => px == event.px,
            None => false,
        };
        let same_qty: bool = match known {
            Some(level) => level.qty == event.qty,
            None => false,
        };
        if at_best && same_qty {
            own.best_timestamp = event.exch_ts;
            return Vec::new();
        }
    }
    let existed: bool = known.is_some();
    if event.qty == 0 {
        let _ = own.levels.remove(&event.px);
    } else {
        own.levels.insert(event.px, Level { qty: event.qty, timestamp: event.exch_ts });
    }
    let mut output: Vec<StoredEvent> = Vec::new();
    if existed || event.qty > 0 {
        output.push(output_event);
    }
    if bbo || touches {
        own.best_timestamp = event.exch_ts;
    }
    if event.qty > 0 && crossing {
        opposite.remove_crossed(!buy, event.px, &output_event, &mut output);
        opposite.best_timestamp = event.exch_ts;
    }
    if bbo {
        own.remove_better(buy, event.px, &output_event, &mut output);
    }
    proof {
        let expected = applied(old(own)@, old(opposite)@, buy, event);
        assert(output@ =~= expected.2);
    }
    output
}

/// Fuses depth and BBO using exact observed price levels, independent of market tick rules.
#[derive(Debug)]
pub struct FixedFuse {
    /// The bid side.
    pub bids: BookSide,
    /// The ask side.
    pub asks: BookSide,
}

impl View for FixedFuse {
    type V = BookModel;

    open spec fn view(&self) -> BookModel {
        BookModel { bids: self.bids@, asks: self.asks@ }
    }
}

impl FixedFuse {
    /// Whether both sides are in order.
    pub open spec fn wf(&self) -> bool {
        self.bids.wf() && self.asks.wf()
    }

    /// An empty book.
    pub fn new() -> (r: FixedFuse)
        ensures
            r.wf(),
            r@ == empty_book(),
    {
        FixedFuse { bids: BookSide::new(), asks: BookSide::new() }
    }

    /// Applies an event and returns what is to be published of it.
    pub fn process(&mut self, event: StoredEvent) -> (r: Vec<StoredEvent>)
        requires
            old(self).wf(),
            changes_book(event.ev),
        ensures
            final(self).wf(),
            (final(self)@, r@) == fused(old(self)@, event),
    {
        let kind: u64 = event.ev & 0xff;
        let buy: bool = event.ev & BUY_EVENT != 0;
        if kind == DEPTH_CLEAR_EVENT {
            if buy {
                let kept: usize = self.bids.levels.lower(&event.px);
                self.bids.levels.keep_first(kept);
                self.bids.best_timestamp = event.exch_ts;
            } else if event.ev & SELL_EVENT != 0 {
                let dropped: usize = self.asks.levels.upper(&event.px);
                self.asks.levels.drop_first(dropped);
                self.asks.best_timestamp = event.exch_ts;
            } else {
                self.bids.levels.clear();
                self.asks.levels.clear();
                self.bids.best_timestamp = event.exch_ts;
                self.asks.best_timestamp = event.exch_ts;
            }
            return vec![event];
        }
        if buy {
            update_side(&mut self.bids, &mut self.asks, true, event)
        } else {
            update_side(&mut self.asks, &mut self.bids, false, event)
        }
    }
}

/// Whether every bid is below every ask.
pub open spec fn uncrossed(book: BookModel) -> bool {
    forall|i: int, j: int|
        0 <= i < book.bids.levels.len() && 0 <= j < book.asks.levels.len() ==> (
        #[trigger] book.bids.levels[i]).0 < (#[trigger] book.asks.levels[j]).0
}

/// Whether both sides are in the order of their prices.
pub open spec fn in_order(book: BookModel) -> bool {
    ordered(book.bids.levels) && ordered(book.asks.levels)
}

/// Every level after one is removed was there before.
proof fn lemma_level_removed(levels: Seq<(i64, Level)>, px: i64)
    requires
        ordered(levels),
    ensures
        ordered(removed(levels, px as int)),
        forall|i: int|
            0 <= i < removed(levels, px as int).len() ==> exists|k: int|
                0 <= k < levels.len() && levels[k] == #[trigger] removed(levels, px as int)[i],
{
    let t = removed(levels, px as int);
    let n = below(levels, px as int);
    lemma_below_splits(levels, px as int);
    lemma_removed(levels, px as int);
    assert forall|i: int| 0 <= i < t.len() implies exists|k: int|
        0 <= k < levels.len() && levels[k] == #[trigger] t[i] by {
        if holds(levels, px as int) && i >= n {
            assert(levels[i + 1] == t[i]);
        } else {
            assert(levels[i] == t[i]);
        }
    }
}

/// Every level after one is inserted was there before, or is the inserted one.
proof fn lemma_level_inserted(levels: Seq<(i64, Level)>, px: i64, level: Level)
    requires
        ordered(levels),
    ensures
        ordered(inserted(levels, px, level)),
        forall|i: int|
            0 <= i < inserted(levels, px, level).len() ==> (#[trigger] inserted(
                levels,
                px,
                level,
            )[i]).0 == px || exists|k: int|
                0 <= k < levels.len() && levels[k] == inserted(levels, px, level)[i],
{
    let t = inserted(levels, px, level);
    let n = below(levels, px as int);
    lemma_below_splits(levels, px as int);
    lemma_inserted(levels, px, level);
    assert forall|i: int| 0 <= i < t.len() && (#[trigger] t[i]).0 != px implies exists|k: int|
        0 <= k < levels.len() && levels[k] == t[i] by {
        if !holds(levels, px as int) && i > n {
            assert(levels[i - 1] == t[i]);
        } else if i != n {
            assert(levels[i] == t[i]);
        }
    }
}

/// Every level after an update was there before, or is the updated one.
proof fn lemma_with_level(levels: Seq<(i64, Level)>, event: StoredEvent)
    requires
        ordered(levels),
    ensures
        ordered(with_level(levels, event)),
        forall|i: int|
            0 <= i < with_level(levels, event).len() ==> (event.qty != 0 && (
            #[trigger] with_level(levels, event)[i]).0 == event.px) || exists|k: int|
                0 <= k < levels.len() && levels[k] == with_level(levels, event)[i],
{
    if event.qty == 0 {
        lemma_level_removed(levels, event.px);
    } else {
        lemma_level_inserted(
            levels,
            event.px,
            Level { qty: event.qty, timestamp: event.exch_ts },
        );
    }
}

/// The levels that stay on the side that an update crosses are beyond its price.
proof fn lemma_without_crossed(side: SideModel, buy: bool, px: i64)
    requires
        ordered(side.levels),
    ensures
        ({
            let t = side.without_crossed(buy, px).levels;
            &&& ordered(t)
            &&& forall|i: int|
                0 <= i < t.len() ==> (if buy {
                    (#[trigger] t[i]).0 < px
                } else {
                    t[i].0 > px
                }) && exists|k: int| 0 <= k < side.levels.len() && side.levels[k] == t[i]
        }),
{
    let t = side.without_crossed(buy, px).levels;
    if buy {
        lemma_below_splits(side.levels, px as int);
        lemma_keep_below(side.levels, px as int);
        assert forall|i: int| 0 <= i < t.len() implies (#[trigger] t[i]).0 < px && exists|k: int|
            0 <= k < side.levels.len() && side.levels[k] == t[i] by {
            assert(side.levels[i] == t[i]);
        }
    } else {
        let n = below(side.levels, px + 1);
        lemma_below_splits(side.levels, px + 1);
        lemma_drop_below(side.levels, px + 1);
        assert forall|i: int| 0 <= i < t.len() implies (#[trigger] t[i]).0 > px && exists|k: int|
            0 <= k < side.levels.len() && side.levels[k] == t[i] by {
            assert(side.levels[i + n] == t[i]);
        }
    }
}

/// The levels that stay when the better ones go were there before.
proof fn lemma_without_better(side: SideModel, buy: bool, px: i64)
    requires
        ordered(side.levels),
    ensures
        ({
            let t = side.without_better(buy, px).levels;
            &&& ordered(t)
            &&& forall|i: int|
                0 <= i < t.len() ==> exists|k: int|
                    0 <= k < side.levels.len() && side.levels[k] == #[trigger] t[i]
        }),
{
    let t = side.without_better(buy, px).levels;
    if buy {
        lemma_below_splits(side.levels, px + 1);
        lemma_keep_below(side.levels, px + 1);
        assert forall|i: int| 0 <= i < t.len() implies exists|k: int|
            0 <= k < side.levels.len() && side.levels[k] == #[trigger] t[i] by {
            assert(side.levels[i] == t[i]);
        }
    } else {
        let n = below(side.levels, px as int);
        lemma_below_splits(side.levels, px as int);
        lemma_drop_below(side.levels, px as int);
        assert forall|i: int| 0 <= i < t.len() implies exists|k: int|
            0 <= k < side.levels.len() && side.levels[k] == #[trigger] t[i] by {
            assert(side.levels[i + n] == t[i]);
        }
    }
}

/// Whether one side stays clear of the other: bids below asks, or asks above bids.
spec fn apart(own: Seq<(i64, Level)>, opposite: Seq<(i64, Level)>, buy: bool) -> bool {
    forall|i: int, j: int|
        0 <= i < own.len() && 0 <= j < opposite.len() ==> (if buy {
            (#[trigger] own[i]).0 < (#[trigger] opposite[j]).0
        } else {
            own[i].0 > opposite[j].0
        })
}

/// An update keeps the two sides apart.
#[verifier::spinoff_prover]
#[verifier::rlimit(60)]
proof fn lemma_updated_apart(own: SideModel, opposite: SideModel, buy: bool, event: StoredEvent)
    requires
        ordered(own.levels),
        ordered(opposite.levels),
        apart(own.levels, opposite.levels, buy),
        event.qty >= 0,
    ensures
        ({
            let r = updated(own, opposite, buy, event);
            &&& ordered(r.0.levels)
            &&& ordered(r.1.levels)
            &&& apart(r.0.levels, r.1.levels, buy)
        }),
{
    if !stale(own, opposite, buy, event) && !confirms(own, buy, event) {
        let r = applied(own, opposite, buy, event);
        let changed = with_level(own.levels, event);
        lemma_with_level(own.levels, event);
        lemma_without_crossed(opposite, !buy, event.px);
        lemma_without_better(SideModel { levels: changed, ..own }, buy, event.px);
        let a = r.0.levels;
        let b = r.1.levels;
        assert forall|i: int, j: int| 0 <= i < a.len() && 0 <= j < b.len() implies (if buy {
            (#[trigger] a[i]).0 < (#[trigger] b[j]).0
        } else {
            a[i].0 > b[j].0
        }) by {
            let k = choose|k: int| 0 <= k < changed.len() && changed[k] == a[i];
            assert(0 <= k < changed.len() && changed[k] == a[i]) by {
                if kind_of(event.ev) != DEPTH_BBO_EVENT {
                    assert(changed[i] == a[i]);
                }
            }
            let m = choose|m: int| 0 <= m < opposite.levels.len() && opposite.levels[m] == b[j];
            assert(0 <= m < opposite.levels.len() && opposite.levels[m] == b[j]) by {
                if !(event.qty > 0 && crosses(opposite, buy, event.px)) {
                    assert(opposite.levels[j] == b[j]);
                }
            }
            if event.qty != 0 && changed[k].0 == event.px {
                if !crosses(opposite, buy, event.px) {
                    let best = if buy {
                        0
                    } else {
                        opposite.levels.len() - 1
                    };
                    if best < m {
                        assert(opposite.levels[best].0.rank() < opposite.levels[m].0.rank());
                    } else if m < best {
                        assert(opposite.levels[m].0.rank() < opposite.levels[best].0.rank());
                    }
                }
            } else {
                let q = choose|q: int| 0 <= q < own.levels.len() && own.levels[q] == changed[k];
                assert(own.levels[q] == changed[k]);
            }
        }
    }
}

/// Fusing keeps a book whose bids are below its asks that way, and keeps each side in the order of
/// its prices, for every event with a quantity that is not negative.
pub proof fn fusing_keeps_bids_below_asks(book: BookModel, event: StoredEvent)
    requires
        in_order(book),
        uncrossed(book),
        changes_book(event.ev),
        event.qty >= 0,
    ensures
        in_order(fused(book, event).0),
        uncrossed(fused(book, event).0),
{
    if kind_of(event.ev) == DEPTH_CLEAR_EVENT {
        lemma_without_crossed(book.bids, true, event.px);
        lemma_without_crossed(book.asks, false, event.px);
    } else if event.ev & BUY_EVENT != 0 {
        lemma_updated_apart(book.bids, book.asks, true, event);
    } else {
        lemma_updated_apart(book.asks, book.bids, false, event);
    }
}

/// The quantity at a price.
pub open spec fn quantity_at(side: SideModel, px: int) -> Option<i64> {
    match lookup(side.levels, px) {
        Some(level) => Some(level.qty),
        None => None,
    }
}

/// The quantity that the last of the updates of one price on one side gives.
pub open spec fn last_update(updates: Seq<StoredEvent>, buy: bool, px: i64) -> Option<i64>
    decreases updates.len(),
{
    if updates.len() == 0 {
        None
    } else {
        let last = updates.last();
        if (last.ev & BUY_EVENT != 0) == buy && last.px == px {
            Some(last.qty)
        } else {
            last_update(updates.drop_last(), buy, px)
        }
    }
}

/// What becomes of a quantity when updates are replayed.
pub open spec fn replayed(
    before: Option<i64>,
    updates: Seq<StoredEvent>,
    buy: bool,
    px: i64,
) -> Option<i64> {
    match last_update(updates, buy, px) {
        Some(qty) => if qty == 0 {
            None
        } else {
            Some(qty)
        },
        None => before,
    }
}

/// The last update of two rows of updates is that of the second, where it has one.
proof fn lemma_last_update_joined(
    a: Seq<StoredEvent>,
    b: Seq<StoredEvent>,
    buy: bool,
    px: i64,
)
    ensures
        last_update(a + b, buy, px) == (match last_update(b, buy, px) {
            Some(qty) => Some(qty),
            None => last_update(a, buy, px),
        }),
    decreases b.len(),
{
    if b.len() == 0 {
        assert(a + b =~= a);
    } else {
        assert((a + b).drop_last() =~= a + b.drop_last());
        assert((a + b).last() == b.last());
        lemma_last_update_joined(a, b.drop_last(), buy, px);
    }
}

/// The flags of published updates name their sides.
proof fn lemma_published_side(ev: u64)
    ensures
        depth_flag(true) & BUY_EVENT != 0,
        depth_flag(false) & BUY_EVENT == 0,
        (((ev & !0xff) | DEPTH_EVENT) & BUY_EVENT != 0) == (ev & BUY_EVENT != 0),
{
    assert((1u64 | 0x2000_0000) & 0x2000_0000 != 0) by (bit_vector);
    assert((1u64 | 0x1000_0000) & 0x2000_0000 == 0) by (bit_vector);
    assert((((ev & !0xffu64) | 1) & 0x2000_0000 != 0) == (ev & 0x2000_0000 != 0)) by (bit_vector);
}

/// Removals say of each removed price that its quantity is zero.
proof fn lemma_last_removal(
    levels: Seq<(i64, Level)>,
    side: bool,
    source: StoredEvent,
    buy: bool,
    px: i64,
)
    requires
        ordered(levels),
    ensures
        last_update(removals(levels, side, source), buy, px) == (if side == buy && lookup(
            levels,
            px as int,
        ) is Some {
            Some(0i64)
        } else {
            None
        }),
    decreases levels.len(),
{
    let updates = removals(levels, side, source);
    lemma_published_side(0);
    if levels.len() > 0 {
        let n = levels.len() - 1;
        let front = levels.drop_last();
        lemma_ordered_part(levels, 0, n);
        assert(front =~= levels.subrange(0, n));
        assert(updates.drop_last() =~= removals(front, side, source));
        lemma_last_removal(front, side, source, buy, px);
        lemma_lookup_entry(levels, n);
        lemma_keep_below(levels, levels[n].0.rank());
        assert(levels.take(n) =~= front);
        assert(lookup(front, px as int) == (if px < levels[n].0 {
            lookup(levels, px as int)
        } else {
            None
        }));
        if px > levels[n].0 {
            lemma_below_splits(levels, px as int);
            if lookup(levels, px as int) is Some {
                let k = below(levels, px as int);
                assert(levels[k].0 == px);
                if k < n {
                    assert(levels[k].0.rank() < levels[n].0.rank());
                }
            }
        }
    }
}

/// What a change of one side does to the quantities, level by level.
proof fn lemma_side_quantities(side: SideModel, buy: bool, px: i64)
    requires
        ordered(side.levels),
    ensures
        ordered(side.crossed(buy, px)),
        ordered(side.better(buy, px)),
        forall|r: int|
            #[trigger] lookup(side.crossed(buy, px), r) == (if buy && r < px || !buy && r > px {
                None
            } else {
                lookup(side.levels, r)
            }),
        forall|r: int|
            #[trigger] lookup(side.without_crossed(buy, px).levels, r) == (if buy && r < px || !buy
                && r > px {
                lookup(side.levels, r)
            } else {
                None
            }),
        forall|r: int|
            #[trigger] lookup(side.better(buy, px), r) == (if buy && r > px || !buy && r < px {
                lookup(side.levels, r)
            } else {
                None
            }),
        forall|r: int|
            #[trigger] lookup(side.without_better(buy, px).levels, r) == (if buy && r > px || !buy
                && r < px {
                None
            } else {
                lookup(side.levels, r)
            }),
{
    lemma_keep_below(side.levels, px as int);
    lemma_keep_below(side.levels, px + 1);
    lemma_drop_below(side.levels, px as int);
    lemma_drop_below(side.levels, px + 1);
}

/// What is published of an update of one side, replayed, gives the quantities of both sides.
#[verifier::spinoff_prover]
#[verifier::rlimit(40)]
proof fn lemma_updates_replay(
    own: SideModel,
    opposite: SideModel,
    buy: bool,
    event: StoredEvent,
    side: bool,
    px: i64,
)
    requires
        ordered(own.levels),
        ordered(opposite.levels),
        event.qty >= 0,
        buy == (event.ev & BUY_EVENT != 0),
    ensures
        ({
            let r = updated(own, opposite, buy, event);
            let before = if side == buy {
                own
            } else {
                opposite
            };
            let after = if side == buy {
                r.0
            } else {
                r.1
            };
            quantity_at(after, px as int) == replayed(
                quantity_at(before, px as int),
                r.2,
                side,
                px,
            )
        }),
{
    if !stale(own, opposite, buy, event) && !confirms(own, buy, event) {
        let bbo = kind_of(event.ev) == DEPTH_BBO_EVENT;
        let output = published(event);
        let changed = SideModel {
            levels: with_level(own.levels, event),
            best_timestamp: if bbo || touches_best(own, buy, event.px) {
                event.exch_ts
            } else {
                own.best_timestamp
            },
        };
        let first = if holds(own.levels, event.px as int) || event.qty > 0 {
            seq![output]
        } else {
            Seq::empty()
        };
        let crossing = event.qty > 0 && crosses(opposite, buy, event.px);
        let second = if crossing {
            removals(opposite.crossed(!buy, event.px), !buy, output)
        } else {
            Seq::empty()
        };
        let third = if bbo {
            removals(changed.better(buy, event.px), buy, output)
        } else {
            Seq::empty()
        };
        lemma_with_level(own.levels, event);
        lemma_side_quantities(opposite, !buy, event.px);
        lemma_side_quantities(changed, buy, event.px);
        lemma_last_update_joined(first + second, third, side, px);
        lemma_last_update_joined(first, second, side, px);
        lemma_published_side(event.ev);
        assert(first.len() > 0 ==> first.drop_last() =~= Seq::empty());
        if crossing {
            lemma_last_removal(opposite.crossed(!buy, event.px), !buy, output, side, px);
        }
        if bbo {
            lemma_last_removal(changed.better(buy, event.px), buy, output, side, px);
        }
        if event.qty == 0 {
            lemma_removed(own.levels, event.px as int);
        } else {
            lemma_inserted(
                own.levels,
                event.px,
                Level { qty: event.qty, timestamp: event.exch_ts },
            );
        }
        let r = applied(own, opposite, buy, event);
        let p = px as int;
        let named = side == buy && px == event.px;
        assert(r.2 == first + second + third);
        assert(last_update(first, side, px) == (if first.len() > 0 && named {
            Some(event.qty)
        } else {
            None
        })) by {
            assert(last_update(Seq::empty(), side, px) is None);
        }
        if side == buy {
            assert(last_update(second, side, px) is None) by {
                assert(last_update(Seq::empty(), side, px) is None);
            }
            assert(lookup(changed.levels, p) == (if named {
                if event.qty == 0 {
                    None
                } else {
                    Some(Level { qty: event.qty, timestamp: event.exch_ts })
                }
            } else {
                lookup(own.levels, p)
            })) by {
                assert(px != event.px ==> p != event.px.rank());
            }
            assert(lookup(r.0.levels, p) == (if bbo {
                lookup(changed.without_better(buy, event.px).levels, p)
            } else {
                lookup(changed.levels, p)
            }));
            assert(bbo ==> last_update(third, side, px) == (if lookup(
                changed.better(buy, event.px),
                p,
            ) is Some {
                Some(0i64)
            } else {
                None
            }));
            assert(!bbo ==> last_update(third, side, px) is None);
            assert(named && first.len() == 0 ==> lookup(own.levels, p) is None);
        } else {
            assert(last_update(third, side, px) is None) by {
                assert(last_update(Seq::empty(), side, px) is None);
            }
            assert(lookup(r.1.levels, p) == (if crossing {
                lookup(opposite.without_crossed(!buy, event.px).levels, p)
            } else {
                lookup(opposite.levels, p)
            }));
            assert(crossing ==> last_update(second, side, px) == (if lookup(
                opposite.crossed(!buy, event.px),
                p,
            ) is Some {
                Some(0i64)
            } else {
                None
            }));
            assert(!crossing ==> last_update(second, side, px) is None);
        }
    }
}

/// What is published of an update says all that it changed: replaying the published updates gives
/// the quantity at every price on both sides. This holds of every update with a quantity that is
/// not negative; a clear is published as it came.
pub proof fn published_updates_replay(book: BookModel, event: StoredEvent, side: bool, px: i64)
    requires
        in_order(book),
        changes_book(event.ev),
        kind_of(event.ev) != DEPTH_CLEAR_EVENT,
        event.qty >= 0,
    ensures
        ({
            let r = fused(book, event);
            let before = if side {
                book.bids
            } else {
                book.asks
            };
            let after = if side {
                r.0.bids
            } else {
                r.0.asks
            };
            quantity_at(after, px as int) == replayed(
                quantity_at(before, px as int),
                r.1,
                side,
                px,
            )
        }),
{
    if event.ev & BUY_EVENT != 0 {
        lemma_updates_replay(book.bids, book.asks, true, event, side, px);
    } else {
        lemma_updates_replay(book.asks, book.bids, false, event, side, px);
    }
}

/// Whether nothing that the book knows is newer than `timestamp`.
pub open spec fn known_before(book: BookModel, timestamp: i64) -> bool {
    &&& book.bids.best_timestamp <= timestamp
    &&& book.asks.best_timestamp <= timestamp
    &&& forall|px: int|
        #![trigger lookup(book.bids.levels, px)]
        lookup(book.bids.levels, px) matches Some(level) ==> level.timestamp <= timestamp
    &&& forall|px: int|
        #![trigger lookup(book.asks.levels, px)]
        lookup(book.asks.levels, px) matches Some(level) ==> level.timestamp <= timestamp
}

/// Whether every level of a book offers a quantity.
pub open spec fn no_empty_levels(book: BookModel) -> bool {
    &&& forall|px: int| (#[trigger] quantity_at(book.bids, px)) matches Some(qty) ==> qty > 0
    &&& forall|px: int| (#[trigger] quantity_at(book.asks, px)) matches Some(qty) ==> qty > 0
}

/// One side of a book: the bids where `buy` holds, else the asks.
pub open spec fn side_of(book: BookModel, buy: bool) -> SideModel {
    if buy {
        book.bids
    } else {
        book.asks
    }
}

/// The best price of a side in order: no level of the side is better.
proof fn lemma_best(side: SideModel, buy: bool, px: i64)
    requires
        ordered(side.levels),
        lookup(side.levels, px as int) is Some,
    ensures
        side.best(buy) matches Some(best) && reaches(buy, best, px) && lookup(
            side.levels,
            best as int,
        ) is Some,
{
    let k = below(side.levels, px as int);
    lemma_below_splits(side.levels, px as int);
    assert(side.levels[k].0 == px);
    let last = side.levels.len() - 1;
    lemma_lookup_entry(side.levels, 0);
    lemma_lookup_entry(side.levels, last);
    if k > 0 {
        assert(side.levels[0].0.rank() < side.levels[k].0.rank());
    }
    if k < last {
        assert(side.levels[k].0.rank() < side.levels[last].0.rank());
    }
}

/// What an update that is not stale does to the quantities of both sides.
#[verifier::spinoff_prover]
#[verifier::rlimit(60)]
proof fn lemma_updated_quantities(
    own: SideModel,
    opposite: SideModel,
    buy: bool,
    event: StoredEvent,
    px: i64,
)
    requires
        ordered(own.levels),
        ordered(opposite.levels),
        apart(own.levels, opposite.levels, buy),
        quantity_at(own, event.px as int) != Some(0i64),
        event.qty >= 0,
        !stale(own, opposite, buy, event),
    ensures
        ({
            let r = updated(own, opposite, buy, event);
            let bbo = kind_of(event.ev) == DEPTH_BBO_EVENT;
            &&& quantity_at(r.0, px as int) == (if px == event.px {
                if event.qty == 0 {
                    None
                } else {
                    Some(event.qty)
                }
            } else if bbo && reaches(buy, px, event.px) {
                None
            } else {
                quantity_at(own, px as int)
            })
            &&& quantity_at(r.1, px as int) == (if event.qty > 0 && reaches(!buy, px, event.px) {
                None
            } else {
                quantity_at(opposite, px as int)
            })
        }),
{
    let p = px as int;
    if lookup(own.levels, p) is Some {
        lemma_best(own, buy, px);
    }
    if lookup(opposite.levels, p) is Some {
        lemma_best(opposite, !buy, px);
    }
    if confirms(own, buy, event) {
        if lookup(opposite.levels, p) is Some {
            lemma_below_splits(own.levels, event.px as int);
            lemma_below_splits(opposite.levels, p);
            let i = below(own.levels, event.px as int);
            let j = below(opposite.levels, p);
            assert(own.levels[i].0 == event.px && opposite.levels[j].0 == px);
        }
        assert(own.best(buy) == Some(event.px));
    } else {
        let bbo = kind_of(event.ev) == DEPTH_BBO_EVENT;
        let changed = SideModel {
            levels: with_level(own.levels, event),
            best_timestamp: if bbo || touches_best(own, buy, event.px) {
                event.exch_ts
            } else {
                own.best_timestamp
            },
        };
        lemma_with_level(own.levels, event);
        lemma_side_quantities(opposite, !buy, event.px);
        lemma_side_quantities(changed, buy, event.px);
        if event.qty == 0 {
            lemma_removed(own.levels, event.px as int);
        } else {
            lemma_inserted(
                own.levels,
                event.px,
                Level { qty: event.qty, timestamp: event.exch_ts },
            );
        }
        let r = applied(own, opposite, buy, event);
        assert(lookup(changed.levels, p) == (if px == event.px {
            if event.qty == 0 {
                None
            } else {
                Some(Level { qty: event.qty, timestamp: event.exch_ts })
            }
        } else {
            lookup(own.levels, p)
        })) by {
            assert(px != event.px ==> p != event.px.rank());
        }
        assert(lookup(r.0.levels, p) == (if bbo {
            lookup(changed.without_better(buy, event.px).levels, p)
        } else {
            lookup(changed.levels, p)
        }));
        let crossing = event.qty > 0 && crosses(opposite, buy, event.px);
        assert(lookup(r.1.levels, p) == (if crossing {
            lookup(opposite.without_crossed(!buy, event.px).levels, p)
        } else {
            lookup(opposite.levels, p)
        }));
    }
}

/// An update that is at least as new as all that the book knows is applied. At its own price its
/// side then holds its quantity, or no level where that is zero. A depth update changes no other
/// price of its side, and a best bid or offer removes the prices of its side that are better. An
/// update with a quantity removes the prices of the other side that it meets, and all else stays.
pub proof fn new_updates_are_applied(book: BookModel, event: StoredEvent, px: i64)
    requires
        in_order(book),
        uncrossed(book),
        no_empty_levels(book),
        changes_book(event.ev),
        kind_of(event.ev) != DEPTH_CLEAR_EVENT,
        event.qty >= 0,
        known_before(book, event.exch_ts),
    ensures
        ({
            let buy = event.ev & BUY_EVENT != 0;
            let after = fused(book, event).0;
            let own = quantity_at(side_of(book, buy), px as int);
            let other = quantity_at(side_of(book, !buy), px as int);
            let better = if buy {
                px > event.px
            } else {
                px < event.px
            };
            let met = if buy {
                px <= event.px
            } else {
                px >= event.px
            };
            &&& px == event.px && event.qty > 0 ==> quantity_at(side_of(after, buy), px as int)
                == Some(event.qty)
            &&& px == event.px && event.qty == 0 ==> quantity_at(side_of(after, buy), px as int)
                is None
            &&& px != event.px && !(kind_of(event.ev) == DEPTH_BBO_EVENT && better)
                ==> quantity_at(side_of(after, buy), px as int) == own
            &&& kind_of(event.ev) == DEPTH_BBO_EVENT && better ==> quantity_at(
                side_of(after, buy),
                px as int,
            ) is None
            &&& event.qty > 0 && met ==> quantity_at(side_of(after, !buy), px as int) is None
            &&& !(event.qty > 0 && met) ==> quantity_at(side_of(after, !buy), px as int) == other
        }),
{
    let buy = event.ev & BUY_EVENT != 0;
    let own = side_of(book, buy);
    let opposite = side_of(book, !buy);
    assert(!stale(own, opposite, buy, event));
    lemma_updated_quantities(own, opposite, buy, event, px);
}

/// An update that is older than the level at its price, on its side, changes nothing, and nothing
/// is published of it.
pub proof fn old_updates_are_dropped(book: BookModel, event: StoredEvent)
    requires
        changes_book(event.ev),
        kind_of(event.ev) != DEPTH_CLEAR_EVENT,
        ({
            let own = side_of(book, event.ev & BUY_EVENT != 0);
            ||| lookup(own.levels, event.px as int) matches Some(level) && event.exch_ts
                < level.timestamp
            ||| kind_of(event.ev) == DEPTH_BBO_EVENT && event.exch_ts < own.best_timestamp
        }),
    ensures
        fused(book, event).0 == book,
        fused(book, event).1.len() == 0,
{
}

/// A clear of one side removes the prices of that side from the best one to its own, and no other
/// price of either side; a clear of no side removes all. It is published as it came.
pub proof fn clears_remove_a_range(book: BookModel, event: StoredEvent, px: i64)
    requires
        in_order(book),
        kind_of(event.ev) == DEPTH_CLEAR_EVENT,
    ensures
        ({
            let after = fused(book, event).0;
            let bid = quantity_at(book.bids, px as int);
            let ask = quantity_at(book.asks, px as int);
            let buy = event.ev & BUY_EVENT != 0;
            let sell = event.ev & SELL_EVENT != 0;
            &&& fused(book, event).1 =~= seq![event]
            &&& buy ==> quantity_at(after.asks, px as int) == ask
            &&& buy ==> quantity_at(after.bids, px as int) == (if px < event.px {
                bid
            } else {
                None
            })
            &&& !buy && sell ==> quantity_at(after.bids, px as int) == bid
            &&& !buy && sell ==> quantity_at(after.asks, px as int) == (if px > event.px {
                ask
            } else {
                None
            })
            &&& !buy && !sell ==> quantity_at(after.bids, px as int) is None && quantity_at(
                after.asks,
                px as int,
            ) is None
        }),
{
    lemma_side_quantities(book.bids, true, event.px);
    lemma_side_quantities(book.asks, false, event.px);
}

/// Every level that an update leaves in the book, at a price where it is new, carries the quantity
/// and the exchange time of the update; a level elsewhere is one that was there. So no level is
/// ever empty.
pub proof fn levels_come_from_updates(book: BookModel, event: StoredEvent, buy: bool, px: i64)
    requires
        in_order(book),
        changes_book(event.ev),
        kind_of(event.ev) != DEPTH_CLEAR_EVENT,
        event.qty >= 0,
    ensures
        quantity_at(side_of(book, buy), px as int) != Some(0i64) ==> quantity_at(
            side_of(fused(book, event).0, buy),
            px as int,
        ) != Some(0i64),
        ({
            let before = lookup(side_of(book, buy).levels, px as int);
            let after = lookup(side_of(fused(book, event).0, buy).levels, px as int);
            after matches Some(level) ==> {
                ||| before == after
                ||| {
                    &&& buy == (event.ev & BUY_EVENT != 0)
                    &&& px == event.px
                    &&& level.qty == event.qty
                    &&& level.qty > 0
                    &&& level.timestamp == event.exch_ts
                }
            }
        }),
{
    let own_buy = event.ev & BUY_EVENT != 0;
    let own = side_of(book, own_buy);
    let opposite = side_of(book, !own_buy);
    if !stale(own, opposite, own_buy, event) && !confirms(own, own_buy, event) {
        let changed = SideModel {
            levels: with_level(own.levels, event),
            best_timestamp: if kind_of(event.ev) == DEPTH_BBO_EVENT || touches_best(
                own,
                own_buy,
                event.px,
            ) {
                event.exch_ts
            } else {
                own.best_timestamp
            },
        };
        lemma_with_level(own.levels, event);
        lemma_side_quantities(opposite, !own_buy, event.px);
        lemma_side_quantities(changed, own_buy, event.px);
        if event.qty == 0 {
            lemma_removed(own.levels, event.px as int);
        } else {
            lemma_inserted(
                own.levels,
                event.px,
                Level { qty: event.qty, timestamp: event.exch_ts },
            );
        }
        assert(px != event.px ==> px as int != event.px.rank());
    }
}

/// What is published of an update has its times, and is either the update itself, or a depth
/// update: nothing is published as a best bid or offer.
pub proof fn published_updates_keep_the_time(book: BookModel, event: StoredEvent, i: int)
    requires
        changes_book(event.ev),
        0 <= i < fused(book, event).1.len(),
    ensures
        ({
            let update = fused(book, event).1[i];
            &&& update.exch_ts == event.exch_ts
            &&& update.local_ts == event.local_ts
            &&& kind_of(update.ev) != DEPTH_BBO_EVENT
            &&& update == event || kind_of(update.ev) == DEPTH_EVENT
        }),
{
    let ev = event.ev;
    assert(((ev & !0xffu64) | 1) & 0xff == 1) by (bit_vector);
    assert((1u64 | 0x2000_0000) & 0xff == 1) by (bit_vector);
    assert((1u64 | 0x1000_0000) & 0xff == 1) by (bit_vector);
}

/// Fusing keeps each side in the order of its prices, whatever the quantity.
pub proof fn lemma_fused_in_order(book: BookModel, event: StoredEvent)
    requires
        in_order(book),
        changes_book(event.ev),
    ensures
        in_order(fused(book, event).0),
{
    if kind_of(event.ev) == DEPTH_CLEAR_EVENT {
        lemma_without_crossed(book.bids, true, event.px);
        lemma_without_crossed(book.asks, false, event.px);
    } else {
        let buy = event.ev & BUY_EVENT != 0;
        let own = side_of(book, buy);
        let opposite = side_of(book, !buy);
        lemma_with_level(own.levels, event);
        lemma_without_crossed(opposite, !buy, event.px);
        lemma_without_better(
            SideModel { levels: with_level(own.levels, event), ..own },
            buy,
            event.px,
        );
    }
}

/// A depth update or a row of a snapshot, new or old, changes at most one price of its own side.
pub proof fn one_price_of_the_side_changes(book: BookModel, event: StoredEvent, px: i64)
    requires
        in_order(book),
        kind_of(event.ev) == DEPTH_EVENT || kind_of(event.ev) == DEPTH_SNAPSHOT_EVENT,
        px != event.px,
    ensures
        ({
            let buy = event.ev & BUY_EVENT != 0;
            lookup(side_of(fused(book, event).0, buy).levels, px as int) == lookup(
                side_of(book, buy).levels,
                px as int,
            )
        }),
{
    let own = side_of(book, event.ev & BUY_EVENT != 0);
    assert(px as int != event.px.rank());
    if event.qty == 0 {
        lemma_removed(own.levels, event.px as int);
    } else {
        lemma_inserted(own.levels, event.px, Level { qty: event.qty, timestamp: event.exch_ts });
    }
}

/// Whether no level of a side has a price that is better than another price on it.
pub open spec fn none_is_better(side: SideModel, buy: bool, px: i64) -> bool {
    forall|p: i64|
        #![trigger lookup(side.levels, p as int)]
        lookup(side.levels, p as int) is Some ==> reaches(buy, px, p)
}

/// Whether an update at a price meets a level of the other side.
pub open spec fn meets_a_level(other: SideModel, buy: bool, px: i64) -> bool {
    exists|p: i64|
        #![trigger lookup(other.levels, p as int)]
        lookup(other.levels, p as int) is Some && reaches(buy, px, p)
}

/// Whether an update comes too late. It does where the level at its price is newer; where it is a
/// best bid or offer, or no price of its side is better than its own, and the best price of its side
/// was confirmed later; and where its price meets one of the other side and the best price there was
/// confirmed later.
pub open spec fn comes_too_late(book: BookModel, event: StoredEvent) -> bool {
    let buy = event.ev & BUY_EVENT != 0;
    let own = side_of(book, buy);
    let other = side_of(book, !buy);
    ||| lookup(own.levels, event.px as int) matches Some(level) && event.exch_ts < level.timestamp
    ||| event.exch_ts < own.best_timestamp && (kind_of(event.ev) == DEPTH_BBO_EVENT
        || none_is_better(own, buy, event.px))
    ||| event.exch_ts < other.best_timestamp && meets_a_level(other, buy, event.px)
}

/// The best price of a side, seen from its levels.
proof fn lemma_best_reached(side: SideModel, own_buy: bool, buy: bool, px: i64)
    requires
        ordered(side.levels),
    ensures
        own_buy == buy ==> (touches_best(side, buy, px) <==> none_is_better(side, buy, px)),
        own_buy != buy ==> (crosses(side, buy, px) <==> meets_a_level(side, buy, px)),
{
    assert forall|p: i64|
        #![trigger lookup(side.levels, p as int)]
        lookup(side.levels, p as int) is Some implies side.best(own_buy) is Some && reaches(
        own_buy,
        side.best(own_buy)->0,
        p,
    ) && lookup(side.levels, side.best(own_buy)->0 as int) is Some by {
        lemma_best(side, own_buy, p);
    }
    if side.levels.len() > 0 {
        lemma_lookup_entry(side.levels, 0);
        lemma_lookup_entry(side.levels, side.levels.len() - 1);
        let best = side.best(own_buy)->0;
        assert(lookup(side.levels, best as int) is Some);
    } else {
        assert forall|p: i64|
            #![trigger lookup(side.levels, p as int)]
            lookup(side.levels, p as int) is None by {
            lemma_below_splits(side.levels, p as int);
        }
    }
}

/// An update that comes too late changes nothing and nothing is published of it; every other update
/// is applied, so that its price then holds its quantity.
#[verifier::spinoff_prover]
pub proof fn only_late_updates_are_dropped(book: BookModel, event: StoredEvent)
    requires
        in_order(book),
        uncrossed(book),
        no_empty_levels(book),
        changes_book(event.ev),
        kind_of(event.ev) != DEPTH_CLEAR_EVENT,
        event.qty >= 0,
    ensures
        ({
            let after = fused(book, event);
            let own = quantity_at(side_of(after.0, event.ev & BUY_EVENT != 0), event.px as int);
            &&& comes_too_late(book, event) ==> after.0 == book && after.1.len() == 0
            &&& !comes_too_late(book, event) && event.qty > 0 ==> own == Some(event.qty)
            &&& !comes_too_late(book, event) && event.qty == 0 ==> own is None
        }),
{
    let buy = event.ev & BUY_EVENT != 0;
    let own = side_of(book, buy);
    let other = side_of(book, !buy);
    lemma_best_reached(own, buy, buy, event.px);
    lemma_best_reached(other, !buy, buy, event.px);
    assert(stale(own, other, buy, event) == comes_too_late(book, event));
    if !comes_too_late(book, event) {
        lemma_updated_quantities(own, other, buy, event, event.px);
    }
}

/// When the best price of a side was last confirmed. An update that is applied confirms that of its
/// side where it is a best bid or offer or no price there was better than its own, and that of the
/// other side where it has a quantity and its price meets one there. A clear confirms the sides that
/// it clears. Nothing else does.
pub proof fn best_prices_are_confirmed_by_what_touches_them(book: BookModel, event: StoredEvent)
    requires
        in_order(book),
        uncrossed(book),
        changes_book(event.ev),
        event.qty >= 0,
    ensures
        ({
            let after = fused(book, event).0;
            let buy = event.ev & BUY_EVENT != 0;
            let own = side_of(book, buy);
            let other = side_of(book, !buy);
            let update = kind_of(event.ev) != DEPTH_CLEAR_EVENT && !comes_too_late(book, event);
            let touches = kind_of(event.ev) == DEPTH_BBO_EVENT || none_is_better(own, buy, event.px);
            let meets = event.qty > 0 && meets_a_level(other, buy, event.px);
            &&& update && touches ==> side_of(after, buy).best_timestamp == event.exch_ts
            &&& update && !touches ==> side_of(after, buy).best_timestamp == own.best_timestamp
            &&& update && meets ==> side_of(after, !buy).best_timestamp == event.exch_ts
            &&& update && !meets ==> side_of(after, !buy).best_timestamp == other.best_timestamp
            &&& kind_of(event.ev) == DEPTH_CLEAR_EVENT && buy ==> after.bids.best_timestamp
                == event.exch_ts && after.asks.best_timestamp == book.asks.best_timestamp
            &&& kind_of(event.ev) == DEPTH_CLEAR_EVENT && !buy && event.ev & SELL_EVENT != 0
                ==> after.asks.best_timestamp == event.exch_ts && after.bids.best_timestamp
                == book.bids.best_timestamp
        }),
{
    let buy = event.ev & BUY_EVENT != 0;
    let own = side_of(book, buy);
    let other = side_of(book, !buy);
    lemma_best_reached(own, buy, buy, event.px);
    lemma_best_reached(other, !buy, buy, event.px);
    if confirms(own, buy, event) && crosses(other, buy, event.px) {
        let px = choose|p: i64|
            #![trigger lookup(other.levels, p as int)]
            lookup(other.levels, p as int) is Some && reaches(buy, event.px, p);
        lemma_below_splits(own.levels, event.px as int);
        lemma_below_splits(other.levels, px as int);
        let i = below(own.levels, event.px as int);
        let j = below(other.levels, px as int);
        assert(own.levels[i].0 == event.px && other.levels[j].0 == px);
    }
}

/// A book without levels.
pub open spec fn empty_book() -> BookModel {
    BookModel {
        bids: SideModel { levels: Seq::empty(), best_timestamp: 0 },
        asks: SideModel { levels: Seq::empty(), best_timestamp: 0 },
    }
}

} // verus!
