//! Finds the price of an order, and whether it may have it.
use vstd::prelude::*;

use crate::decimal::Decimal;
use crate::depth::walked;
use crate::depth::Book;
use crate::depth::DepthVisitor;
use crate::depth::MarketDepth;
use crate::error::BacktestError;
use crate::lifecycle::Order;
use crate::lifecycle::OrderModel;
use crate::rules::price_accepted;
use crate::rules::TickSizeChange;
use crate::rules::TickSizeError;
use crate::rules::TickSizeSchedule;
use crate::types::OrdType;
use crate::types::PriceMatch;
use crate::sorted_map::below;
use crate::types::Side;

verus! {

/// How the price of an order is found.
#[derive(Clone, Copy, Debug)]
pub struct PriceInstruction {
    /// The side.
    pub side: Side,
    /// The type.
    pub order_type: OrdType,
    /// How the price is found.
    pub price_match: PriceMatch,
    /// The price, where the order carries it.
    pub price: Decimal,
}

impl OrderModel {
    /// How the price of the order is found.
    pub open spec fn instruction(self) -> PriceInstruction {
        PriceInstruction {
            side: self.side,
            order_type: self.order_type,
            price_match: self.price_match,
            price: self.price,
        }
    }
}

impl Order {
    /// How the price of the order is found.
    pub fn price_instruction(&self) -> (r: PriceInstruction)
        ensures
            r == self@.instruction(),
    {
        PriceInstruction {
            side: self.side,
            order_type: self.order_type,
            price_match: self.price_match,
            price: self.price,
        }
    }
}

/// Whether the price of an order of this type can be found in this way.
pub open spec fn price_match_valid(order_type: OrdType, price_match: PriceMatch) -> bool {
    price_match == PriceMatch::Explicit || order_type == OrdType::Limit
}

/// Checks that the price of an order of this type can be found in this way.
pub fn validate_price_match(order_type: OrdType, price_match: PriceMatch) -> (r: Result<
    (),
    BacktestError,
>)
    ensures
        r == (if price_match_valid(order_type, price_match) {
            Ok::<(), BacktestError>(())
        } else {
            Err(BacktestError::InvalidOrderRequest)
        }),
{
    match price_match {
        PriceMatch::Explicit => Ok(()),
        _ => if order_type == OrdType::Limit {
            Ok(())
        } else {
            Err(BacktestError::InvalidOrderRequest)
        },
    }
}

/// Whether the tick-size rule at a time allows the price of an order. A price that the exchange
/// finds remains valid even when it came from a level created under an older rule.
pub open spec fn rule_satisfied(
    instruction: PriceInstruction,
    timestamp: i64,
    changes: Seq<TickSizeChange>,
) -> Result<bool, TickSizeError> {
    if instruction.order_type == OrdType::Limit && instruction.price_match
        == PriceMatch::Explicit {
        price_accepted(changes, timestamp, instruction.price)
    } else {
        Ok(true)
    }
}

/// Whether the tick-size rule at a time allows the price of an order.
pub fn price_satisfies_rule(
    instruction: &PriceInstruction,
    timestamp: i64,
    schedule: &TickSizeSchedule,
) -> (r: Result<bool, TickSizeError>)
    requires
        schedule.wf(),
    ensures
        r == rule_satisfied(*instruction, timestamp, schedule@),
{
    if instruction.order_type == OrdType::Limit && instruction.price_match
        == PriceMatch::Explicit {
        schedule.accepts(timestamp, instruction.price)
    } else {
        // PriceMatch is an instruction, not a user-selected price. Its resolved book price remains
        // valid even when it came from a depth level created under an older tick-size rule.
        Ok(true)
    }
}

/// The other side.
pub open spec fn other_side(side: Side) -> Side {
    match side {
        Side::Buy => Side::Sell,
        Side::Sell => Side::Buy,
    }
}

/// The other side.
fn opposite(side: Side) -> (r: Side)
    ensures
        r == other_side(side),
{
    match side {
        Side::Buy => Side::Sell,
        Side::Sell => Side::Buy,
    }
}

/// The price of the `n`th of the levels that have a quantity, counted from one.
pub open spec fn nth_price(levels: Seq<(Decimal, Decimal)>, n: int) -> Option<Decimal>
    decreases levels.len(),
{
    if levels.len() == 0 {
        None
    } else if levels[0].1@ > 0 {
        if n == 1 {
            Some(levels[0].0)
        } else {
            nth_price(levels.skip(1), n - 1)
        }
    } else {
        nth_price(levels.skip(1), n)
    }
}

/// The price of the `n`th level of a side of the book, counted from the best price.
pub open spec fn book_price(book: Book, side: Side, n: int) -> Option<Decimal> {
    match side {
        Side::Buy => match book.best_bid {
            None => None,
            Some(best) => nth_price(book.bids_from(best@), n),
        },
        Side::Sell => match book.best_ask {
            None => None,
            Some(best) => nth_price(book.asks_from(best@), n),
        },
    }
}

/// The side of the book and the level that an instruction names.
pub open spec fn named_level(instruction: PriceInstruction) -> (Side, int) {
    let side = instruction.side;
    match instruction.price_match {
        PriceMatch::Explicit => (side, 0),
        PriceMatch::Opponent => (other_side(side), 1),
        PriceMatch::Opponent5 => (other_side(side), 5),
        PriceMatch::Opponent10 => (other_side(side), 10),
        PriceMatch::Opponent20 => (other_side(side), 20),
        PriceMatch::Queue => (side, 1),
        PriceMatch::Queue5 => (side, 5),
        PriceMatch::Queue10 => (side, 10),
        PriceMatch::Queue20 => (side, 20),
    }
}

/// The price of an order: the one that it carries, or that of the level that it names.
pub open spec fn resolved_price(instruction: PriceInstruction, book: Book) -> Option<Decimal> {
    if instruction.price_match == PriceMatch::Explicit {
        Some(instruction.price)
    } else {
        let level = named_level(instruction);
        book_price(book, level.0, level.1)
    }
}

/// Finds the price of an order.
pub fn resolve_price_match<MD: MarketDepth>(instruction: &PriceInstruction, depth: &MD) -> (r:
    Option<Decimal>)
    requires
        depth.wf(),
    ensures
        r == resolved_price(*instruction, depth.book()),
{
    let side: Side = instruction.side;
    let (book_side, level): (Side, usize) = match instruction.price_match {
        PriceMatch::Explicit => {
            return Some(instruction.price);
        },
        PriceMatch::Opponent => (opposite(side), 1),
        PriceMatch::Opponent5 => (opposite(side), 5),
        PriceMatch::Opponent10 => (opposite(side), 10),
        PriceMatch::Opponent20 => (opposite(side), 20),
        PriceMatch::Queue => (side, 1),
        PriceMatch::Queue5 => (side, 5),
        PriceMatch::Queue10 => (side, 10),
        PriceMatch::Queue20 => (side, 20),
    };
    price_level(depth, book_side, level)
}

/// Counts levels down to one.
#[derive(Debug)]
struct LevelVisitor {
    remaining: usize,
    matched: Option<Decimal>,
}

impl View for LevelVisitor {
    type V = (usize, Option<Decimal>);

    closed spec fn view(&self) -> (usize, Option<Decimal>) {
        (self.remaining, self.matched)
    }
}

impl DepthVisitor for LevelVisitor {
    closed spec fn visited(
        before: (usize, Option<Decimal>),
        price: Decimal,
        qty: Decimal,
    ) -> ((usize, Option<Decimal>), bool) {
        if qty@ > 0 && before.0 > 0 {
            if before.0 == 1 {
                ((0usize, Some(price)), false)
            } else {
                (((before.0 - 1) as usize, before.1), true)
            }
        } else {
            (before, true)
        }
    }

    fn visit(&mut self, price: Decimal, qty: Decimal) -> (r: bool) {
        if qty.is_positive() && self.remaining > 0 {
            self.remaining = self.remaining - 1;
            if self.remaining == 0 {
                self.matched = Some(price);
                return false;
            }
        }
        true
    }
}

/// What counting down finds.
proof fn lemma_nth_price(levels: Seq<(Decimal, Decimal)>, n: usize)
    requires
        n > 0,
    ensures
        walked::<LevelVisitor>(levels, (n, None)).1 == nth_price(levels, n as int),
    decreases levels.len(),
{
    if levels.len() > 0 {
        if levels[0].1@ > 0 {
            if n > 1 {
                lemma_nth_price(levels.skip(1), (n - 1) as usize);
            }
        } else {
            lemma_nth_price(levels.skip(1), n);
        }
    }
}

/// The price of a level of a side of the book, counted from the best price.
fn price_level<MD: MarketDepth>(depth: &MD, side: Side, level: usize) -> (r: Option<Decimal>)
    requires
        depth.wf(),
        level > 0,
    ensures
        r == book_price(depth.book(), side, level as int),
{
    let mut visitor: LevelVisitor = LevelVisitor { remaining: level, matched: None };
    match side {
        Side::Buy => {
            let best: Decimal = depth.best_bid()?;
            depth.for_each_bid_depth_from(best, &mut visitor);
            proof {
                lemma_nth_price(depth.book().bids_from(best@), level);
            }
        },
        Side::Sell => {
            let best: Decimal = depth.best_ask()?;
            depth.for_each_ask_depth_from(best, &mut visitor);
            proof {
                lemma_nth_price(depth.book().asks_from(best@), level);
            }
        },
    }
    visitor.matched
}

/// Whether a price on a side reaches the best price of the other side.
pub open spec fn crosses_book(side: Side, price: Decimal, book: Book) -> bool {
    match side {
        Side::Buy => book.best_ask matches Some(ask) && price@ >= ask@,
        Side::Sell => book.best_bid matches Some(bid) && price@ <= bid@,
    }
}

/// Whether a price on a side reaches the best price of the other side.
pub fn is_crossing<MD: MarketDepth>(side: Side, price: Decimal, depth: &MD) -> (r: bool)
    ensures
        r == crosses_book(side, price, depth.book()),
{
    match side {
        Side::Buy => match depth.best_ask() {
            Some(ask) => ask.le(price),
            None => false,
        },
        Side::Sell => match depth.best_bid() {
            Some(bid) => price.le(bid),
            None => false,
        },
    }
}

/// The `n`th of the levels that have a quantity.
proof fn lemma_nth_of_filtered(levels: Seq<(Decimal, Decimal)>, n: int)
    requires
        n >= 1,
    ensures
        ({
            let held = levels.filter(|level: (Decimal, Decimal)| level.1@ > 0);
            nth_price(levels, n) == (if n <= held.len() {
                Some(held[n - 1].0)
            } else {
                None
            })
        }),
    decreases levels.len(),
{
    let has = |level: (Decimal, Decimal)| level.1@ > 0;
    reveal(Seq::filter);
    if levels.len() > 0 {
        let first = levels.take(1);
        let rest = levels.skip(1);
        assert(levels =~= first + rest);
        Seq::filter_distributes_over_add(first, rest, has);
        assert(first.drop_last() =~= Seq::empty());
        assert(first.drop_last().filter(has) =~= Seq::empty());
        assert(first.last() == levels[0]);
        if levels[0].1@ > 0 {
            assert(first.filter(has) =~= seq![levels[0]]);
            if n > 1 {
                lemma_nth_of_filtered(rest, n - 1);
            }
        } else {
            assert(first.filter(has) =~= Seq::empty());
            lemma_nth_of_filtered(rest, n);
        }
    }
}

/// Which level a way to find a price names, counted from the best price: that of the same side for a
/// queue, that of the other side for an opponent.
pub open spec fn level_number(price_match: PriceMatch) -> int {
    match price_match {
        PriceMatch::Explicit => 0,
        PriceMatch::Queue | PriceMatch::Opponent => 1,
        PriceMatch::Queue5 | PriceMatch::Opponent5 => 5,
        PriceMatch::Queue10 | PriceMatch::Opponent10 => 10,
        PriceMatch::Queue20 | PriceMatch::Opponent20 => 20,
    }
}

/// Whether a way to find a price looks at the bids, for an order of a side.
pub open spec fn looks_at_bids(price_match: PriceMatch, side: Side) -> bool {
    match price_match {
        PriceMatch::Queue | PriceMatch::Queue5 | PriceMatch::Queue10 | PriceMatch::Queue20 => side
            == Side::Buy,
        _ => side == Side::Sell,
    }
}

/// The price of an order that names a level is that of the level with the number that it names,
/// among the levels of the side that it looks at which have a quantity, from the best price of that
/// side on: descending for bids, ascending for asks. Where there are fewer levels, or there is no
/// best price, there is no price. An order that carries its price has that one.
pub proof fn named_prices_count_from_the_best(instruction: PriceInstruction, book: Book)
    ensures
        instruction.price_match == PriceMatch::Explicit ==> resolved_price(instruction, book)
            == Some(instruction.price),
        instruction.price_match != PriceMatch::Explicit ==> ({
            let n = level_number(instruction.price_match);
            let bids = looks_at_bids(instruction.price_match, instruction.side);
            let best = if bids {
                book.best_bid
            } else {
                book.best_ask
            };
            match best {
                None => resolved_price(instruction, book) is None,
                Some(best) => {
                    let from = if bids {
                        book.bids.take(below(book.bids, best@ + 1)).reverse()
                    } else {
                        book.asks.skip(below(book.asks, best@))
                    };
                    let held = from.filter(|level: (Decimal, Decimal)| level.1@ > 0);
                    resolved_price(instruction, book) == (if n <= held.len() {
                        Some(held[n - 1].0)
                    } else {
                        None
                    })
                },
            }
        }),
{
    if instruction.price_match != PriceMatch::Explicit {
        let n = level_number(instruction.price_match);
        let bids = looks_at_bids(instruction.price_match, instruction.side);
        if bids {
            if let Some(best) = book.best_bid {
                lemma_nth_of_filtered(book.bids_from(best@), n);
            }
        } else {
            if let Some(best) = book.best_ask {
                lemma_nth_of_filtered(book.asks_from(best@), n);
            }
        }
    }
}

/// An order reaches the other side exactly where a trade at the best price there would be no worse
/// than its own price: a buyer at the best ask or above, a seller at the best bid or below.
pub proof fn orders_cross_where_they_reach_the_best(side: Side, price: Decimal, book: Book)
    ensures
        side == Side::Buy && book.best_ask is Some ==> (crosses_book(side, price, book) <==> price@
            >= book.best_ask->0@),
        side == Side::Sell && book.best_bid is Some ==> (crosses_book(side, price, book) <==> price@
            <= book.best_bid->0@),
        side == Side::Buy && book.best_ask is None ==> !crosses_book(side, price, book),
        side == Side::Sell && book.best_bid is None ==> !crosses_book(side, price, book),
{
}

/// The tick-size rule binds exactly the limit orders that carry their own price.
pub proof fn the_rule_binds_explicit_limit_orders(
    instruction: PriceInstruction,
    timestamp: i64,
    changes: Seq<TickSizeChange>,
)
    ensures
        instruction.order_type == OrdType::Market || instruction.price_match != PriceMatch::Explicit
            ==> rule_satisfied(instruction, timestamp, changes) == Ok::<bool, TickSizeError>(true),
        instruction.order_type == OrdType::Limit && instruction.price_match == PriceMatch::Explicit
            ==> rule_satisfied(instruction, timestamp, changes) == price_accepted(
            changes,
            timestamp,
            instruction.price,
        ),
{
}

/// Only a limit order can name a level.
pub proof fn only_limit_orders_name_a_level(order_type: OrdType, price_match: PriceMatch)
    ensures
        !price_match_valid(order_type, price_match) <==> order_type == OrdType::Market && price_match
            != PriceMatch::Explicit,
{
}

} // verus!
