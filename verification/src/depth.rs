//! The order book of one asset.
use vstd::prelude::*;

use crate::decimal::lemma_small_wholes;
use crate::decimal::Decimal;
use crate::sorted_map::below;
use crate::sorted_map::inserted;
use crate::sorted_map::lemma_below;
use crate::sorted_map::lemma_below_splits;
use crate::sorted_map::lemma_drop_below;
use crate::sorted_map::lemma_inserted;
use crate::sorted_map::lemma_keep_below;
use crate::sorted_map::lemma_lookup_entry;
use crate::sorted_map::lemma_removed;
use crate::sorted_map::lookup;
use crate::sorted_map::ordered;
use crate::sorted_map::removed;
use crate::sorted_map::Ranked;
use crate::sorted_map::SortedMap;
use crate::types::Event;
use crate::types::Side;
use crate::types::BUY_EVENT;
use crate::types::DEPTH_SNAPSHOT_EVENT;
use crate::types::SELL_EVENT;

verus! {

/// What an order book holds.
#[verifier::ext_equal]
pub struct Book {
    /// The bids with their quantities, in ascending order of their prices.
    pub bids: Seq<(Decimal, Decimal)>,
    /// The asks with their quantities, in ascending order of their prices.
    pub asks: Seq<(Decimal, Decimal)>,
    /// The best bid.
    pub best_bid: Option<Decimal>,
    /// The best ask.
    pub best_ask: Option<Decimal>,
    /// Whether a snapshot was received.
    pub ready: bool,
    /// When the book was last updated.
    pub timestamp: i64,
}

/// The quantity at a price; zero where there is no level.
pub open spec fn quantity(levels: Seq<(Decimal, Decimal)>, price: int) -> Decimal {
    match lookup(levels, price) {
        Some(qty) => qty,
        None => Decimal::whole(0),
    }
}

/// The quantity at the best price; zero where there is none.
pub open spec fn best_quantity(levels: Seq<(Decimal, Decimal)>, best: Option<Decimal>) -> Decimal {
    match best {
        Some(price) => quantity(levels, price@),
        None => Decimal::whole(0),
    }
}

/// The levels after a quantity was set at a price; a quantity of zero removes the level.
pub open spec fn with_quantity(
    levels: Seq<(Decimal, Decimal)>,
    price: Decimal,
    qty: Decimal,
) -> Seq<(Decimal, Decimal)> {
    if qty@ == 0 {
        removed(levels, price@)
    } else {
        inserted(levels, price, qty)
    }
}

/// The highest price.
pub open spec fn highest(levels: Seq<(Decimal, Decimal)>) -> Option<Decimal> {
    if levels.len() == 0 {
        None
    } else {
        Some(levels.last().0)
    }
}

/// The lowest price.
pub open spec fn lowest(levels: Seq<(Decimal, Decimal)>) -> Option<Decimal> {
    if levels.len() == 0 {
        None
    } else {
        Some(levels.first().0)
    }
}

/// The lowest price above another.
pub open spec fn lowest_above(levels: Seq<(Decimal, Decimal)>, price: int) -> Option<Decimal> {
    lowest(levels.skip(below(levels, price + 1)))
}

/// The highest price below another.
pub open spec fn highest_below(levels: Seq<(Decimal, Decimal)>, price: int) -> Option<Decimal> {
    highest(levels.take(below(levels, price)))
}

impl Book {
    /// A book without levels.
    pub open spec fn empty() -> Book {
        Book {
            bids: Seq::empty(),
            asks: Seq::empty(),
            best_bid: None,
            best_ask: None,
            ready: false,
            timestamp: 0,
        }
    }

    /// Whether both sides are in the order of their prices.
    pub open spec fn in_order(self) -> bool {
        ordered(self.bids) && ordered(self.asks)
    }

    /// The book after a bid level was set. The best ask is the lowest one above the best bid.
    pub open spec fn bid_set(self, price: Decimal, qty: Decimal, timestamp: i64) -> Book {
        let bids = with_quantity(self.bids, price, qty);
        let best_bid = highest(bids);
        Book {
            bids,
            best_bid,
            best_ask: match best_bid {
                Some(best) => lowest_above(self.asks, best@),
                None => self.best_ask,
            },
            timestamp,
            ..self
        }
    }

    /// The book after an ask level was set. The best bid is the highest one below the best ask.
    pub open spec fn ask_set(self, price: Decimal, qty: Decimal, timestamp: i64) -> Book {
        let asks = with_quantity(self.asks, price, qty);
        let best_ask = lowest(asks);
        Book {
            asks,
            best_ask,
            best_bid: match best_ask {
                Some(best) => highest_below(self.bids, best@),
                None => self.best_bid,
            },
            timestamp,
            ..self
        }
    }

    /// The book after one side was cleared from the best price to a limit, or altogether.
    pub open spec fn cleared(self, side: Side, limit: Option<Decimal>) -> Book {
        let bids = match (side, limit) {
            (Side::Buy, Some(limit)) => self.bids.take(below(self.bids, limit@)),
            (Side::Buy, None) => Seq::empty(),
            _ => self.bids,
        };
        let asks = match (side, limit) {
            (Side::Sell, Some(limit)) => self.asks.skip(below(self.asks, limit@ + 1)),
            (Side::Sell, None) => Seq::empty(),
            _ => self.asks,
        };
        Book { bids, asks, best_bid: highest(bids), best_ask: lowest(asks), ..self }
    }

    /// The book after it was marked as ready.
    pub open spec fn marked_ready(self) -> Book {
        Book { ready: true, ..self }
    }

    /// The asks at a price and above, in the order in which a buyer takes them.
    pub open spec fn asks_from(self, price: int) -> Seq<(Decimal, Decimal)> {
        self.asks.skip(below(self.asks, price))
    }

    /// The bids at a price and below, in the order in which a seller takes them.
    pub open spec fn bids_from(self, price: int) -> Seq<(Decimal, Decimal)> {
        self.bids.take(below(self.bids, price + 1)).reverse()
    }
}

/// Looks at levels one after the other.
pub trait DepthVisitor: View {
    /// What a level does to the visitor, and whether it goes on.
    spec fn visited(before: Self::V, price: Decimal, qty: Decimal) -> (Self::V, bool);

    /// Looks at a level and says whether to go on.
    fn visit(&mut self, price: Decimal, qty: Decimal) -> (r: bool)
        ensures
            (final(self)@, r) == Self::visited(old(self)@, price, qty),
    ;
}

/// What levels do to a visitor that looks at them one after the other until it stops. A level
/// without quantity is passed over.
pub open spec fn walked<V: DepthVisitor>(levels: Seq<(Decimal, Decimal)>, before: V::V) -> V::V
    decreases levels.len(),
{
    if levels.len() == 0 {
        before
    } else if levels[0].1@ == 0 {
        walked::<V>(levels.skip(1), before)
    } else {
        let r = V::visited(before, levels[0].0, levels[0].1);
        if r.1 {
            walked::<V>(levels.skip(1), r.0)
        } else {
            r.0
        }
    }
}

/// An order book that can be looked at.
pub trait MarketDepth: Sized {
    /// What the book holds.
    spec fn book(&self) -> Book;

    /// Whether the book is in order.
    spec fn wf(&self) -> bool;

    /// A book that is in order has its levels in order.
    proof fn wf_is_in_order(&self)
        requires
            self.wf(),
        ensures
            self.book().in_order(),
    ;

    /// Whether a snapshot was received.
    fn depth_ready(&self) -> (r: bool)
        ensures
            r == self.book().ready,
    ;

    /// Says that a snapshot was received.
    fn mark_depth_ready(&mut self)
        requires
            old(self).wf(),
        ensures
            final(self).wf(),
            final(self).book() == old(self).book().marked_ready(),
    ;

    /// The best bid.
    fn best_bid(&self) -> (r: Option<Decimal>)
        ensures
            r == self.book().best_bid,
    ;

    /// The best ask.
    fn best_ask(&self) -> (r: Option<Decimal>)
        ensures
            r == self.book().best_ask,
    ;

    /// The quantity at the best bid.
    fn best_bid_qty(&self) -> (r: Decimal)
        requires
            self.wf(),
        ensures
            r == best_quantity(self.book().bids, self.book().best_bid),
    ;

    /// The quantity at the best ask.
    fn best_ask_qty(&self) -> (r: Decimal)
        requires
            self.wf(),
        ensures
            r == best_quantity(self.book().asks, self.book().best_ask),
    ;

    /// The quantity of the bids at a price.
    fn bid_qty_at_price(&self, price: Decimal) -> (r: Decimal)
        requires
            self.wf(),
        ensures
            r == quantity(self.book().bids, price@),
    ;

    /// The quantity of the asks at a price.
    fn ask_qty_at_price(&self, price: Decimal) -> (r: Decimal)
        requires
            self.wf(),
        ensures
            r == quantity(self.book().asks, price@),
    ;

    /// Looks at the asks from a price upwards.
    fn for_each_ask_depth_from<V: DepthVisitor>(&self, start_price: Decimal, visitor: &mut V)
        requires
            self.wf(),
        ensures
            final(visitor)@ == walked::<V>(
                self.book().asks_from(start_price@),
                old(visitor)@,
            ),
    ;

    /// Looks at the bids from a price downwards.
    fn for_each_bid_depth_from<V: DepthVisitor>(&self, start_price: Decimal, visitor: &mut V)
        requires
            self.wf(),
        ensures
            final(visitor)@ == walked::<V>(
                self.book().bids_from(start_price@),
                old(visitor)@,
            ),
    ;
}

/// Result of updating one price level on one side of the book.
#[derive(Clone, Copy, Debug, PartialEq)]
pub struct DepthUpdate {
    /// The price of the level.
    pub level_price: Decimal,
    /// The best price of that side before.
    pub previous_best_price: Option<Decimal>,
    /// The best price of that side now.
    pub best_price: Option<Decimal>,
    /// The quantity of the level before.
    pub previous_qty: Decimal,
    /// The quantity of the level now.
    pub new_qty: Decimal,
    /// When the level was updated.
    pub timestamp: i64,
}

/// What an update of a bid level reports.
pub open spec fn bid_update(book: Book, price: Decimal, qty: Decimal, timestamp: i64) -> DepthUpdate {
    DepthUpdate {
        level_price: price,
        previous_best_price: book.best_bid,
        best_price: book.bid_set(price, qty, timestamp).best_bid,
        previous_qty: quantity(book.bids, price@),
        new_qty: qty,
        timestamp,
    }
}

/// What an update of an ask level reports.
pub open spec fn ask_update(book: Book, price: Decimal, qty: Decimal, timestamp: i64) -> DepthUpdate {
    DepthUpdate {
        level_price: price,
        previous_best_price: book.best_ask,
        best_price: book.ask_set(price, qty, timestamp).best_ask,
        previous_qty: quantity(book.asks, price@),
        new_qty: qty,
        timestamp,
    }
}

/// An order book whose levels can be set.
pub trait L2MarketDepth: MarketDepth {
    /// Sets the quantity of a bid level.
    fn update_bid_depth(&mut self, price: Decimal, qty: Decimal, timestamp: i64) -> (r: DepthUpdate)
        requires
            old(self).wf(),
        ensures
            final(self).wf(),
            final(self).book() == old(self).book().bid_set(price, qty, timestamp),
            r == bid_update(old(self).book(), price, qty, timestamp),
    ;

    /// Sets the quantity of an ask level.
    fn update_ask_depth(&mut self, price: Decimal, qty: Decimal, timestamp: i64) -> (r: DepthUpdate)
        requires
            old(self).wf(),
        ensures
            final(self).wf(),
            final(self).book() == old(self).book().ask_set(price, qty, timestamp),
            r == ask_update(old(self).book(), price, qty, timestamp),
    ;

    /// `clear_upto_price` is `None` when the entire selected side should be cleared.
    fn clear_depth(&mut self, side: Side, clear_upto_price: Option<Decimal>)
        requires
            old(self).wf(),
        ensures
            final(self).wf(),
            final(self).book() == old(self).book().cleared(side, clear_upto_price),
    ;
}

/// The bids of a snapshot, put in one after the other.
pub open spec fn snapshot_bids(data: Seq<Event>) -> Seq<(Decimal, Decimal)>
    decreases data.len(),
{
    if data.len() == 0 {
        Seq::empty()
    } else {
        let before = snapshot_bids(data.drop_last());
        if data.last().ev & BUY_EVENT == BUY_EVENT {
            inserted(before, data.last().px, data.last().qty)
        } else {
            before
        }
    }
}

/// The asks of a snapshot, put in one after the other.
pub open spec fn snapshot_asks(data: Seq<Event>) -> Seq<(Decimal, Decimal)>
    decreases data.len(),
{
    if data.len() == 0 {
        Seq::empty()
    } else {
        let before = snapshot_asks(data.drop_last());
        if data.last().ev & BUY_EVENT != BUY_EVENT && data.last().ev & SELL_EVENT == SELL_EVENT {
            inserted(before, data.last().px, data.last().qty)
        } else {
            before
        }
    }
}

/// The events that a side of a book amounts to.
pub open spec fn side_events(levels: Seq<(Decimal, Decimal)>, side: u64, timestamp: i64) -> Seq<
    Event,
> {
    Seq::new(
        levels.len(),
        |i: int|
            Event {
                ev: DEPTH_SNAPSHOT_EVENT | side,
                exch_ts: timestamp,
                local_ts: timestamp,
                px: levels[i].0,
                qty: levels[i].1,
            },
    )
}

/// The events that a book amounts to: the bids, then the asks.
pub open spec fn book_events(book: Book) -> Seq<Event> {
    side_events(book.bids, BUY_EVENT, book.timestamp) + side_events(
        book.asks,
        SELL_EVENT,
        book.timestamp,
    )
}

/// An order book that can be replaced as a whole.
pub trait ApplySnapshot: MarketDepth {
    /// Replaces the levels by those of a snapshot.
    fn apply_snapshot(&mut self, data: &[Event])
        requires
            old(self).wf(),
        ensures
            final(self).wf(),
            final(self).book() == (Book {
                bids: snapshot_bids(data@),
                asks: snapshot_asks(data@),
                best_bid: highest(snapshot_bids(data@)),
                best_ask: lowest(snapshot_asks(data@)),
                ready: true,
                timestamp: old(self).book().timestamp,
            }),
    ;

    /// The events that the book amounts to.
    fn snapshot(&self) -> (r: Vec<Event>)
        requires
            self.wf(),
        ensures
            r@ == book_events(self.book()),
    ;
}

/// Sparse level-2 order book keyed by exact prices.
#[derive(Debug)]
pub struct BTreeMarketDepth {
    /// Whether a snapshot was received.
    pub depth_ready: bool,
    /// When the book was last updated.
    pub timestamp: i64,
    /// The bids.
    pub bid_depth: SortedMap<Decimal, Decimal>,
    /// The asks.
    pub ask_depth: SortedMap<Decimal, Decimal>,
    /// The best bid.
    pub best_bid: Option<Decimal>,
    /// The best ask.
    pub best_ask: Option<Decimal>,
}

impl BTreeMarketDepth {
    /// An empty book.
    pub fn new() -> (r: BTreeMarketDepth)
        ensures
            r.wf(),
            r.book() == Book::empty(),
    {
        BTreeMarketDepth {
            depth_ready: false,
            timestamp: 0,
            bid_depth: SortedMap::new(),
            ask_depth: SortedMap::new(),
            best_bid: None,
            best_ask: None,
        }
    }

    /// The highest bid.
    fn highest_bid(&self) -> (r: Option<Decimal>)
        ensures
            r == highest(self.bid_depth@),
    {
        let len: usize = self.bid_depth.entries.len();
        if len == 0 {
            None
        } else {
            Some(self.bid_depth.entries[len - 1].0)
        }
    }

    /// The lowest ask.
    fn lowest_ask(&self) -> (r: Option<Decimal>)
        ensures
            r == lowest(self.ask_depth@),
    {
        if self.ask_depth.entries.len() == 0 {
            None
        } else {
            Some(self.ask_depth.entries[0].0)
        }
    }

    /// Makes the lowest ask above the best bid the best ask.
    fn discard_crossed_asks(&mut self)
        requires
            old(self).wf(),
        ensures
            final(self).wf(),
            final(self).book() == (Book {
                best_ask: match old(self).book().best_bid {
                    Some(best) => lowest_above(old(self).book().asks, best@),
                    None => old(self).book().best_ask,
                },
                ..old(self).book()
            }),
    {
        if let Some(best_bid) = self.best_bid {
            let from: usize = self.ask_depth.upper(&best_bid);
            self.best_ask = if from < self.ask_depth.entries.len() {
                Some(self.ask_depth.entries[from].0)
            } else {
                None
            };
        }
    }

    /// Makes the highest bid below the best ask the best bid.
    fn discard_crossed_bids(&mut self)
        requires
            old(self).wf(),
        ensures
            final(self).wf(),
            final(self).book() == (Book {
                best_bid: match old(self).book().best_ask {
                    Some(best) => highest_below(old(self).book().bids, best@),
                    None => old(self).book().best_bid,
                },
                ..old(self).book()
            }),
    {
        if let Some(best_ask) = self.best_ask {
            let to: usize = self.bid_depth.lower(&best_ask);
            self.best_bid = if to > 0 {
                Some(self.bid_depth.entries[to - 1].0)
            } else {
                None
            };
        }
    }

    /// The quantity at a price.
    fn quantity_at(levels: &SortedMap<Decimal, Decimal>, price: Decimal) -> (r: Decimal)
        requires
            levels.wf(),
        ensures
            r == quantity(levels@, price@),
    {
        match levels.get(&price) {
            Some(qty) => *qty,
            None => Decimal::zero(),
        }
    }

    /// Sets the quantity at a price.
    fn set_quantity(levels: &mut SortedMap<Decimal, Decimal>, price: Decimal, qty: Decimal)
        requires
            old(levels).wf(),
        ensures
            final(levels).wf(),
            final(levels)@ == with_quantity(old(levels)@, price, qty),
    {
        if qty.is_zero() {
            let _ = levels.remove(&price);
        } else {
            levels.insert(price, qty);
        }
    }
}

impl MarketDepth for BTreeMarketDepth {
    open spec fn book(&self) -> Book {
        Book {
            bids: self.bid_depth@,
            asks: self.ask_depth@,
            best_bid: self.best_bid,
            best_ask: self.best_ask,
            ready: self.depth_ready,
            timestamp: self.timestamp,
        }
    }

    open spec fn wf(&self) -> bool {
        self.bid_depth.wf() && self.ask_depth.wf()
    }

    proof fn wf_is_in_order(&self) {
    }

    fn depth_ready(&self) -> (r: bool) {
        self.depth_ready
    }

    fn mark_depth_ready(&mut self) {
        self.depth_ready = true;
    }

    fn best_bid(&self) -> (r: Option<Decimal>) {
        self.best_bid
    }

    fn best_ask(&self) -> (r: Option<Decimal>) {
        self.best_ask
    }

    fn best_bid_qty(&self) -> (r: Decimal) {
        match self.best_bid {
            Some(price) => BTreeMarketDepth::quantity_at(&self.bid_depth, price),
            None => Decimal::zero(),
        }
    }

    fn best_ask_qty(&self) -> (r: Decimal) {
        match self.best_ask {
            Some(price) => BTreeMarketDepth::quantity_at(&self.ask_depth, price),
            None => Decimal::zero(),
        }
    }

    fn bid_qty_at_price(&self, price: Decimal) -> (r: Decimal) {
        BTreeMarketDepth::quantity_at(&self.bid_depth, price)
    }

    fn ask_qty_at_price(&self, price: Decimal) -> (r: Decimal) {
        BTreeMarketDepth::quantity_at(&self.ask_depth, price)
    }

    fn for_each_ask_depth_from<V: DepthVisitor>(&self, start_price: Decimal, visitor: &mut V) {
        let from: usize = self.ask_depth.lower(&start_price);
        let ghost levels = self.book().asks_from(start_price@);
        let ghost expected = walked::<V>(levels, visitor@);
        let mut i: usize = from;
        assert(levels.skip(0) =~= levels);
        while i < self.ask_depth.entries.len()
            invariant_except_break
                walked::<V>(levels.skip(i - from), visitor@) == expected,
            invariant
                from <= i <= self.ask_depth@.len(),
                levels == self.ask_depth@.skip(from as int),
            ensures
                visitor@ == expected,
            decreases self.ask_depth@.len() - i,
        {
            let (price, qty): (Decimal, Decimal) = self.ask_depth.entries[i];
            assert(levels.skip(i - from)[0] == self.ask_depth@[i as int]);
            assert(levels.skip(i - from).skip(1) =~= levels.skip(i - from + 1));
            if !qty.is_zero() {
                let go_on: bool = visitor.visit(price, qty);
                if !go_on {
                    break ;
                }
            }
            i = i + 1;
        }
    }

    fn for_each_bid_depth_from<V: DepthVisitor>(&self, start_price: Decimal, visitor: &mut V) {
        let to: usize = self.bid_depth.upper(&start_price);
        let ghost levels = self.book().bids_from(start_price@);
        let ghost expected = walked::<V>(levels, visitor@);
        let mut i: usize = to;
        assert(levels.skip(0) =~= levels);
        while i > 0
            invariant_except_break
                walked::<V>(levels.skip(to - i), visitor@) == expected,
            invariant
                i <= to <= self.bid_depth@.len(),
                levels == self.bid_depth@.take(to as int).reverse(),
            ensures
                visitor@ == expected,
            decreases i,
        {
            let (price, qty): (Decimal, Decimal) = self.bid_depth.entries[i - 1];
            assert(levels.skip(to - i)[0] == self.bid_depth@[i - 1]);
            assert(levels.skip(to - i).skip(1) =~= levels.skip(to - i + 1));
            if !qty.is_zero() {
                let go_on: bool = visitor.visit(price, qty);
                if !go_on {
                    break ;
                }
            }
            i = i - 1;
        }
    }
}

impl L2MarketDepth for BTreeMarketDepth {
    fn update_bid_depth(&mut self, price: Decimal, qty: Decimal, timestamp: i64) -> (r:
        DepthUpdate) {
        let previous_best_price: Option<Decimal> = self.best_bid;
        let previous_qty: Decimal = BTreeMarketDepth::quantity_at(&self.bid_depth, price);
        BTreeMarketDepth::set_quantity(&mut self.bid_depth, price, qty);
        self.best_bid = self.highest_bid();
        self.discard_crossed_asks();
        self.timestamp = timestamp;
        DepthUpdate {
            level_price: price,
            previous_best_price,
            best_price: self.best_bid,
            previous_qty,
            new_qty: qty,
            timestamp,
        }
    }

    fn update_ask_depth(&mut self, price: Decimal, qty: Decimal, timestamp: i64) -> (r:
        DepthUpdate) {
        let previous_best_price: Option<Decimal> = self.best_ask;
        let previous_qty: Decimal = BTreeMarketDepth::quantity_at(&self.ask_depth, price);
        BTreeMarketDepth::set_quantity(&mut self.ask_depth, price, qty);
        self.best_ask = self.lowest_ask();
        self.discard_crossed_bids();
        self.timestamp = timestamp;
        DepthUpdate {
            level_price: price,
            previous_best_price,
            best_price: self.best_ask,
            previous_qty,
            new_qty: qty,
            timestamp,
        }
    }

    fn clear_depth(&mut self, side: Side, clear_upto_price: Option<Decimal>) {
        match (side, clear_upto_price) {
            (Side::Buy, Some(limit)) => {
                let kept: usize = self.bid_depth.lower(&limit);
                self.bid_depth.keep_first(kept);
            },
            (Side::Sell, Some(limit)) => {
                let dropped: usize = self.ask_depth.upper(&limit);
                self.ask_depth.drop_first(dropped);
            },
            (Side::Buy, None) => {
                self.bid_depth.clear();
            },
            (Side::Sell, None) => {
                self.ask_depth.clear();
            },
        }
        self.best_bid = self.highest_bid();
        self.best_ask = self.lowest_ask();
    }
}

impl ApplySnapshot for BTreeMarketDepth {
    fn apply_snapshot(&mut self, data: &[Event]) {
        self.bid_depth.clear();
        self.ask_depth.clear();
        let mut i: usize = 0;
        assert(data@.take(0) =~= Seq::<Event>::empty());
        while i < data.len()
            invariant
                i <= data@.len(),
                self.wf(),
                self.timestamp == old(self).timestamp,
                self.bid_depth@ == snapshot_bids(data@.take(i as int)),
                self.ask_depth@ == snapshot_asks(data@.take(i as int)),
            decreases data@.len() - i,
        {
            let event: Event = data[i];
            assert(data@.take(i + 1).drop_last() =~= data@.take(i as int));
            if event.ev & BUY_EVENT == BUY_EVENT {
                self.bid_depth.insert(event.px, event.qty);
            } else if event.ev & SELL_EVENT == SELL_EVENT {
                self.ask_depth.insert(event.px, event.qty);
            }
            i = i + 1;
        }
        assert(data@.take(i as int) =~= data@);
        self.best_bid = self.highest_bid();
        self.best_ask = self.lowest_ask();
        self.depth_ready = true;
    }

    fn snapshot(&self) -> (r: Vec<Event>) {
        let mut events: Vec<Event> = Vec::new();
        let ghost bids = side_events(self.bid_depth@, BUY_EVENT, self.timestamp);
        let ghost asks = side_events(self.ask_depth@, SELL_EVENT, self.timestamp);
        let mut i: usize = 0;
        while i < self.bid_depth.entries.len()
            invariant
                i <= self.bid_depth@.len(),
                bids == side_events(self.bid_depth@, BUY_EVENT, self.timestamp),
                events@ =~= bids.take(i as int),
            decreases self.bid_depth@.len() - i,
        {
            let (px, qty): (Decimal, Decimal) = self.bid_depth.entries[i];
            events.push(
                Event {
                    ev: DEPTH_SNAPSHOT_EVENT | BUY_EVENT,
                    exch_ts: self.timestamp,
                    local_ts: self.timestamp,
                    px,
                    qty,
                },
            );
            i = i + 1;
        }
        assert(bids.take(i as int) =~= bids);
        let mut j: usize = 0;
        while j < self.ask_depth.entries.len()
            invariant
                j <= self.ask_depth@.len(),
                asks == side_events(self.ask_depth@, SELL_EVENT, self.timestamp),
                events@ =~= bids + asks.take(j as int),
            decreases self.ask_depth@.len() - j,
        {
            let (px, qty): (Decimal, Decimal) = self.ask_depth.entries[j];
            events.push(
                Event {
                    ev: DEPTH_SNAPSHOT_EVENT | SELL_EVENT,
                    exch_ts: self.timestamp,
                    local_ts: self.timestamp,
                    px,
                    qty,
                },
            );
            j = j + 1;
        }
        assert(asks.take(j as int) =~= asks);
        events
    }
}

/// After a level is set the best bid is below the best ask, whatever the book held before.
pub proof fn setting_a_level_uncrosses_the_best_prices(
    book: Book,
    price: Decimal,
    qty: Decimal,
    timestamp: i64,
)
    requires
        book.in_order(),
    ensures
        ({
            let a = book.bid_set(price, qty, timestamp);
            let b = book.ask_set(price, qty, timestamp);
            &&& a.in_order() && b.in_order()
            &&& a.best_bid is Some && a.best_ask is Some ==> a.best_bid->0@ < a.best_ask->0@
            &&& b.best_bid is Some && b.best_ask is Some ==> b.best_bid->0@ < b.best_ask->0@
        }),
{
    lemma_inserted(book.bids, price, qty);
    lemma_removed(book.bids, price@);
    lemma_inserted(book.asks, price, qty);
    lemma_removed(book.asks, price@);
    let a = book.bid_set(price, qty, timestamp);
    if a.best_bid is Some {
        let n = below(book.asks, a.best_bid->0@ + 1);
        lemma_below_splits(book.asks, a.best_bid->0@ + 1);
        if n < book.asks.len() {
            assert(book.asks.skip(n)[0] == book.asks[n]);
        }
    }
    let b = book.ask_set(price, qty, timestamp);
    if b.best_ask is Some {
        let n = below(book.bids, b.best_ask->0@);
        lemma_below_splits(book.bids, b.best_ask->0@);
        if n > 0 {
            assert(book.bids.take(n).last() == book.bids[n - 1]);
        }
    }
}

/// The side of a book that a snapshot of it restores.
proof fn lemma_side_restored(levels: Seq<(Decimal, Decimal)>, n: int)
    requires
        ordered(levels),
        0 <= n < levels.len(),
    ensures
        inserted(levels.take(n), levels[n].0, levels[n].1) == levels.take(n + 1),
{
    let before = levels.take(n);
    assert forall|i: int| 0 <= i < n implies (#[trigger] before[i]).0.rank()
        < levels[n].0.rank() by {
        assert(before[i] == levels[i]);
    }
    lemma_below(before, levels[n].0.rank(), n);
    assert(before.insert(n, (levels[n].0, levels[n].1)) =~= levels.take(n + 1));
}

/// The bids and asks that the first events of a book's snapshot restore.
proof fn lemma_snapshot_restored(book: Book, n: int)
    requires
        book.in_order(),
        0 <= n <= book.bids.len() + book.asks.len(),
    ensures
        snapshot_bids(book_events(book).take(n)) == (if n < book.bids.len() {
            book.bids.take(n)
        } else {
            book.bids
        }),
        snapshot_asks(book_events(book).take(n)) == (if n <= book.bids.len() {
            Seq::empty()
        } else {
            book.asks.take(n - book.bids.len())
        }),
    decreases n,
{
    let events = book_events(book);
    if n > 0 {
        lemma_snapshot_restored(book, n - 1);
        assert(events.take(n).drop_last() =~= events.take(n - 1));
        assert(events.take(n).last() == events[n - 1]);
        assert((4u64 | 0x2000_0000) & 0x2000_0000 == 0x2000_0000) by (bit_vector);
        assert((4u64 | 0x1000_0000) & 0x2000_0000 != 0x2000_0000) by (bit_vector);
        assert((4u64 | 0x1000_0000) & 0x1000_0000 == 0x1000_0000) by (bit_vector);
        if n <= book.bids.len() {
            lemma_side_restored(book.bids, n - 1);
            assert(n == book.bids.len() ==> book.bids.take(n) =~= book.bids);
        } else {
            let k = n - book.bids.len();
            assert(events[n - 1] == side_events(book.asks, SELL_EVENT, book.timestamp)[k - 1]);
            assert(k == 1 ==> book.asks.take(0) =~= Seq::empty());
            lemma_side_restored(book.asks, k - 1);
        }
    } else {
        assert(events.take(0) =~= Seq::empty());
        assert(book.bids.take(0) =~= Seq::<(Decimal, Decimal)>::empty());
        assert(book.bids.len() == 0 ==> book.bids =~= Seq::empty());
    }
}

/// A snapshot that is applied again restores every level of both sides.
pub proof fn snapshot_restores_levels(book: Book)
    requires
        book.in_order(),
    ensures
        snapshot_bids(book_events(book)) == book.bids,
        snapshot_asks(book_events(book)) == book.asks,
{
    let n = (book.bids.len() + book.asks.len()) as int;
    lemma_snapshot_restored(book, n);
    assert(book_events(book).take(n) =~= book_events(book));
    assert(book.asks.take(book.asks.len() as int) =~= book.asks);
    assert(book.asks.len() == 0 ==> book.asks =~= Seq::empty());
    assert(book.bids.take(book.bids.len() as int) =~= book.bids);
}

/// Clearing a side up to a limit removes the prices from the best one to the limit, and no other.
pub proof fn clearing_removes_only_the_range(book: Book, side: Side, limit: Decimal, price: int)
    requires
        book.in_order(),
    ensures
        ({
            let after = book.cleared(side, Some(limit));
            &&& after.in_order()
            &&& lookup(after.bids, price) == (if side == Side::Buy && price >= limit@ {
                None
            } else {
                lookup(book.bids, price)
            })
            &&& lookup(after.asks, price) == (if side == Side::Sell && price <= limit@ {
                None
            } else {
                lookup(book.asks, price)
            })
        }),
{
    lemma_keep_below(book.bids, limit@);
    lemma_drop_below(book.asks, limit@ + 1);
}

/// The highest price of levels in order is that of a level, and no level is higher.
proof fn lemma_highest(levels: Seq<(Decimal, Decimal)>, price: int)
    requires
        ordered(levels),
    ensures
        lookup(levels, price) is Some ==> (highest(levels) matches Some(best) && price <= best@),
        highest(levels) matches Some(best) ==> lookup(levels, best@) is Some,
        lookup(levels, price) is Some ==> (lowest(levels) matches Some(best) && best@ <= price),
        lowest(levels) matches Some(best) ==> lookup(levels, best@) is Some,
{
    if levels.len() > 0 {
        let last = levels.len() - 1;
        lemma_lookup_entry(levels, 0);
        lemma_lookup_entry(levels, last);
        if lookup(levels, price) is Some {
            lemma_below_splits(levels, price);
            let k = below(levels, price);
            assert(levels[k].0.rank() == price);
            if k < last {
                assert(levels[k].0.rank() < levels[last].0.rank());
            }
            if k > 0 {
                assert(levels[0].0.rank() < levels[k].0.rank());
            }
        }
    } else {
        lemma_below_splits(levels, price);
    }
}

/// What setting a level does to the levels of its side.
proof fn lemma_with_quantity(
    levels: Seq<(Decimal, Decimal)>,
    price: Decimal,
    qty: Decimal,
    other: int,
)
    requires
        ordered(levels),
    ensures
        ordered(with_quantity(levels, price, qty)),
        qty@ != 0 ==> lookup(with_quantity(levels, price, qty), price@) == Some(qty),
        qty@ == 0 ==> lookup(with_quantity(levels, price, qty), price@) is None,
        other != price@ ==> lookup(with_quantity(levels, price, qty), other) == lookup(
            levels,
            other,
        ),
{
    lemma_inserted(levels, price, qty);
    lemma_removed(levels, price@);
}

/// Setting a bid level sets the quantity at its price, or removes the level where that is zero, and
/// changes no other level of either side. The best bid is then the highest price with a level, and
/// the best ask the lowest one above the best bid; without a bid the best ask stays.
pub proof fn setting_a_bid_changes_one_level(
    book: Book,
    price: Decimal,
    qty: Decimal,
    timestamp: i64,
    other: int,
)
    requires
        book.in_order(),
    ensures
        ({
            let after = book.bid_set(price, qty, timestamp);
            &&& after.asks == book.asks
            &&& after.ready == book.ready
            &&& after.timestamp == timestamp
            &&& qty@ != 0 ==> lookup(after.bids, price@) == Some(qty)
            &&& qty@ == 0 ==> lookup(after.bids, price@) is None
            &&& other != price@ ==> lookup(after.bids, other) == lookup(book.bids, other)
            &&& lookup(after.bids, other) is Some ==> (after.best_bid matches Some(best) && other
                <= best@)
            &&& after.best_bid matches Some(best) ==> lookup(after.bids, best@) is Some
            &&& after.best_bid is None ==> after.best_ask == book.best_ask
            &&& after.best_bid matches Some(bid) ==> {
                &&& after.best_ask matches Some(ask) ==> bid@ < ask@ && lookup(book.asks, ask@)
                    is Some
                &&& lookup(book.asks, other) is Some && other > bid@ ==> (after.best_ask matches Some(
                    ask,
                ) && ask@ <= other)
            }
        }),
{
    let after = book.bid_set(price, qty, timestamp);
    lemma_with_quantity(book.bids, price, qty, other);
    lemma_highest(after.bids, other);
    if let Some(bid) = after.best_bid {
        let rest = book.asks.skip(below(book.asks, bid@ + 1));
        lemma_drop_below(book.asks, bid@ + 1);
        lemma_highest(rest, other);
    }
}

/// Setting an ask level does to the asks what setting a bid level does to the bids: the best ask is
/// then the lowest price with a level, and the best bid the highest one below the best ask; without
/// an ask the best bid stays.
pub proof fn setting_an_ask_changes_one_level(
    book: Book,
    price: Decimal,
    qty: Decimal,
    timestamp: i64,
    other: int,
)
    requires
        book.in_order(),
    ensures
        ({
            let after = book.ask_set(price, qty, timestamp);
            &&& after.bids == book.bids
            &&& after.ready == book.ready
            &&& after.timestamp == timestamp
            &&& qty@ != 0 ==> lookup(after.asks, price@) == Some(qty)
            &&& qty@ == 0 ==> lookup(after.asks, price@) is None
            &&& other != price@ ==> lookup(after.asks, other) == lookup(book.asks, other)
            &&& lookup(after.asks, other) is Some ==> (after.best_ask matches Some(best) && best@
                <= other)
            &&& after.best_ask matches Some(best) ==> lookup(after.asks, best@) is Some
            &&& after.best_ask is None ==> after.best_bid == book.best_bid
            &&& after.best_ask matches Some(ask) ==> {
                &&& after.best_bid matches Some(bid) ==> bid@ < ask@ && lookup(book.bids, bid@)
                    is Some
                &&& lookup(book.bids, other) is Some && other < ask@ ==> (after.best_bid matches Some(
                    bid,
                ) && other <= bid@)
            }
        }),
{
    let after = book.ask_set(price, qty, timestamp);
    lemma_with_quantity(book.asks, price, qty, other);
    lemma_highest(after.asks, other);
    if let Some(ask) = after.best_ask {
        let rest = book.bids.take(below(book.bids, ask@));
        lemma_keep_below(book.bids, ask@);
        lemma_highest(rest, other);
    }
}

/// What setting a level reports: the price and the quantity that were set, the quantity that was
/// there, and the best price of the side before and after.
pub proof fn updates_report_the_change(book: Book, price: Decimal, qty: Decimal, timestamp: i64)
    ensures
        ({
            let bid = bid_update(book, price, qty, timestamp);
            let ask = ask_update(book, price, qty, timestamp);
            &&& bid.level_price == price && ask.level_price == price
            &&& bid.new_qty == qty && ask.new_qty == qty
            &&& bid.timestamp == timestamp && ask.timestamp == timestamp
            &&& lookup(book.bids, price@) matches Some(before) ==> bid.previous_qty == before
            &&& lookup(book.bids, price@) is None ==> bid.previous_qty@ == 0
            &&& lookup(book.asks, price@) matches Some(before) ==> ask.previous_qty == before
            &&& lookup(book.asks, price@) is None ==> ask.previous_qty@ == 0
            &&& bid.previous_best_price == book.best_bid && ask.previous_best_price == book.best_ask
            &&& bid.best_price == book.bid_set(price, qty, timestamp).best_bid
            &&& ask.best_price == book.ask_set(price, qty, timestamp).best_ask
        }),
{
    lemma_small_wholes();
}

/// A clear finds both best prices anew: the highest bid and the lowest ask that are left. Without a
/// limit it removes all of its side, and none of the other.
pub proof fn clearing_finds_the_best_prices(
    book: Book,
    side: Side,
    limit: Option<Decimal>,
    other: int,
)
    requires
        book.in_order(),
    ensures
        ({
            let after = book.cleared(side, limit);
            &&& after.in_order()
            &&& after.ready == book.ready
            &&& side == Side::Sell ==> after.bids == book.bids
            &&& side == Side::Buy ==> after.asks == book.asks
            &&& limit is None && side == Side::Buy ==> lookup(after.bids, other) is None
            &&& limit is None && side == Side::Sell ==> lookup(after.asks, other) is None
            &&& lookup(after.bids, other) is Some ==> (after.best_bid matches Some(best) && other
                <= best@)
            &&& after.best_bid matches Some(best) ==> lookup(after.bids, best@) is Some
            &&& lookup(after.asks, other) is Some ==> (after.best_ask matches Some(best) && best@
                <= other)
            &&& after.best_ask matches Some(best) ==> lookup(after.asks, best@) is Some
        }),
{
    let after = book.cleared(side, limit);
    if let Some(limit) = limit {
        lemma_keep_below(book.bids, limit@);
        lemma_drop_below(book.asks, limit@ + 1);
    }
    lemma_highest(after.bids, other);
    lemma_highest(after.asks, other);
    if after.bids.len() == 0 {
        lemma_below_splits(after.bids, other);
    }
    if after.asks.len() == 0 {
        lemma_below_splits(after.asks, other);
    }
}

/// The quantity that the last row of a snapshot for a price and a side gives.
pub open spec fn last_row(data: Seq<Event>, buy: bool, price: int) -> Option<Decimal>
    decreases data.len(),
{
    if data.len() == 0 {
        None
    } else {
        let row = data.last();
        let bid = row.ev & BUY_EVENT != 0;
        let ask = row.ev & BUY_EVENT == 0 && row.ev & SELL_EVENT != 0;
        if row.px@ == price && (if buy {
            bid
        } else {
            ask
        }) {
            Some(row.qty)
        } else {
            last_row(data.drop_last(), buy, price)
        }
    }
}

/// A snapshot gives each price of a side the quantity of its last row for it, and no other price any.
pub proof fn snapshots_hold_their_last_rows(data: Seq<Event>, price: int)
    ensures
        ordered(snapshot_bids(data)),
        ordered(snapshot_asks(data)),
        lookup(snapshot_bids(data), price) == last_row(data, true, price),
        lookup(snapshot_asks(data), price) == last_row(data, false, price),
    decreases data.len(),
{
    if data.len() > 0 {
        let front = data.drop_last();
        let row = data.last();
        let ev = row.ev;
        snapshots_hold_their_last_rows(front, price);
        assert((ev & BUY_EVENT == BUY_EVENT) == (ev & BUY_EVENT != 0) && (ev & SELL_EVENT
            == SELL_EVENT) == (ev & SELL_EVENT != 0)) by (bit_vector);
        lemma_inserted(snapshot_bids(front), row.px, row.qty);
        lemma_inserted(snapshot_asks(front), row.px, row.qty);
        assert(row.px.rank() == row.px@);
    } else {
        lemma_below_splits(snapshot_bids(data), price);
        lemma_below_splits(snapshot_asks(data), price);
    }
}

} // verus!
