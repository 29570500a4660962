//! How orders that take the market trade against the book, level by level.
use vstd::prelude::*;

use crate::decimal::Decimal;
use crate::depth::Book;
use crate::depth::DepthVisitor;
use crate::depth::walked;
use crate::processor::partialfillexchange::LiquidityModel;
use crate::processor::partialfillexchange::LiquidityPlan;
use crate::processor::partialfillexchange::beyond_limit;
use crate::processor::partialfillexchange::left_after;
use crate::processor::partialfillexchange::lemma_walk_plans;
use crate::processor::partialfillexchange::opposite_levels;
use crate::processor::partialfillexchange::plan_start;
use crate::processor::partialfillexchange::planned;
use crate::processor::whole_fill_laws::price_to_take;
use crate::sorted_map::Ranked;
use crate::sorted_map::below;
use crate::sorted_map::lemma_below_splits;
use crate::sorted_map::lemma_lookup_entry;
use crate::sorted_map::lookup;
use crate::types::OrdType;
use crate::types::Order;
use crate::types::Side;

verus! {

/// Whether a price comes before another for an order of a side that takes the market: a lower ask
/// for a buyer, a higher bid for a seller.
pub open spec fn comes_first(side: Side, a: int, b: int) -> bool {
    match side {
        Side::Buy => a < b,
        Side::Sell => a > b,
    }
}

/// Whether an order accepts to trade at a price: a market order accepts all, a buyer none above the
/// price of the order and a seller none below.
pub open spec fn accepts(order: Order, price: int) -> bool {
    order.order_type == OrdType::Market || !comes_first(order.side, order.price@, price)
}

/// The levels of the other side: the asks for a buyer, the bids for a seller.
pub open spec fn other_levels(side: Side, book: Book) -> Seq<(Decimal, Decimal)> {
    match side {
        Side::Buy => book.asks,
        Side::Sell => book.bids,
    }
}

/// Whether nothing is left of a number less itself.
pub open spec fn nothing_is_left_of_itself() -> bool {
    forall|d: Decimal| (#[trigger] d.difference(d)) matches Some(left) ==> left@ <= 0
}

/// What looking at levels adds to a plan.
#[verifier::spinoff_prover]
#[verifier::rlimit(20)]
proof fn lemma_walk_takes(
    side: Side,
    levels: Seq<(Decimal, Decimal)>,
    before: LiquidityModel,
)
    requires
        !before.fault,
        before.side == side,
        nothing_is_left_of_itself(),
        forall|a: int, b: int|
            0 <= a < b < levels.len() ==> comes_first(
                side,
                (#[trigger] levels[a]).0@,
                (#[trigger] levels[b]).0@,
            ),
    ensures
        ({
            let after = walked::<LiquidityPlan>(levels, before);
            let n = before.levels.len() as int;
            &&& after.side == side
            &&& after.limit == before.limit
            &&& !after.fault ==> {
                &&& n <= after.levels.len()
                &&& after.levels.take(n) =~= before.levels
                &&& forall|k: int|
                    n <= k < after.levels.len() ==> exists|j: int|
                        0 <= j < levels.len() && (#[trigger] levels[j]).0 == (
                        #[trigger] after.levels[k]).0 && 0 < after.levels[k].1@ <= levels[j].1@
                            && !beyond_limit(side, before.limit, levels[j].0)
                &&& forall|k: int, l: int|
                    n <= k < l < after.levels.len() ==> comes_first(
                        side,
                        (#[trigger] after.levels[k]).0@,
                        (#[trigger] after.levels[l]).0@,
                    )
                &&& forall|j: int|
                    0 <= j < levels.len() && (#[trigger] levels[j]).1@ > 0 && !beyond_limit(
                        side,
                        before.limit,
                        levels[j].0,
                    ) && (after.remaining@ > 0 || (after.levels.len() > n && comes_first(
                        side,
                        levels[j].0@,
                        after.levels.last().0@,
                    ))) ==> exists|k: int|
                        n <= k < after.levels.len() && #[trigger] after.levels[k] == levels[j]
            }
        }),
    decreases levels.len(),
{
    let n = before.levels.len() as int;
    let after = walked::<LiquidityPlan>(levels, before);
    if levels.len() == 0 {
        assert(after.levels.take(n) =~= before.levels);
    } else {
        let rest = levels.skip(1);
        assert forall|j: int| 0 <= j < rest.len() implies rest[j] == levels[j + 1] by {}
        if levels[0].1@ == 0 {
            lemma_walk_takes(side, rest, before);
            if !after.fault {
                lemma_walk_shifts(side, levels, before, after, before.levels, n);
            }
        } else {
            let r = LiquidityPlan::visited(before, levels[0].0, levels[0].1);
            if r.0.fault {
            } else if r.1 {
                lemma_walk_takes(side, rest, r.0);
                if !after.fault {
                    lemma_walk_shifts(side, levels, before, after, r.0.levels, n);
                }
            } else if r.0.levels == before.levels {
                assert(after.levels.take(n) =~= before.levels);
                if beyond_limit(side, before.limit, levels[0].0) {
                    assert forall|j: int| 0 <= j < levels.len() implies beyond_limit(
                        side,
                        before.limit,
                        (#[trigger] levels[j]).0,
                    ) by {
                        if j > 0 {
                            assert(comes_first(side, levels[0].0@, levels[j].0@));
                        }
                    }
                }
            } else {
                assert(after.levels.take(n) =~= before.levels);
                assert(after.levels[n].0 == levels[0].0);
                assert forall|j: int| 0 <= j < levels.len() implies !comes_first(
                    side,
                    (#[trigger] levels[j]).0@,
                    levels[0].0@,
                ) by {
                    if j > 0 {
                        assert(comes_first(side, levels[0].0@, levels[j].0@));
                    }
                }
            }
        }
    }
}

/// What the rest of the levels adds to a plan, behind the first of them.
#[verifier::spinoff_prover]
#[verifier::rlimit(30)]
proof fn lemma_walk_shifts(
    side: Side,
    levels: Seq<(Decimal, Decimal)>,
    before: LiquidityModel,
    after: LiquidityModel,
    middle: Seq<(Decimal, Decimal)>,
    n: int,
)
    requires
        levels.len() > 0,
        n == before.levels.len(),
        before.side == side,
        forall|a: int, b: int|
            0 <= a < b < levels.len() ==> comes_first(
                side,
                (#[trigger] levels[a]).0@,
                (#[trigger] levels[b]).0@,
            ),
        middle == before.levels || middle == before.levels.push(levels[0]),
        middle == before.levels ==> levels[0].1@ <= 0,
        middle != before.levels ==> levels[0].1@ > 0 && !beyond_limit(
            side,
            before.limit,
            levels[0].0,
        ),
        middle.len() <= after.levels.len(),
        after.levels.take(middle.len() as int) =~= middle,
        ({
            let rest = levels.skip(1);
            let m = middle.len() as int;
            &&& forall|k: int|
                m <= k < after.levels.len() ==> exists|j: int|
                    0 <= j < rest.len() && (#[trigger] rest[j]).0 == (#[trigger] after.levels[k]).0
                        && 0 < after.levels[k].1@ <= rest[j].1@ && !beyond_limit(
                        side,
                        before.limit,
                        rest[j].0,
                    )
            &&& forall|k: int, l: int|
                m <= k < l < after.levels.len() ==> comes_first(
                    side,
                    (#[trigger] after.levels[k]).0@,
                    (#[trigger] after.levels[l]).0@,
                )
            &&& forall|j: int|
                0 <= j < rest.len() && (#[trigger] rest[j]).1@ > 0 && !beyond_limit(
                    side,
                    before.limit,
                    rest[j].0,
                ) && (after.remaining@ > 0 || (after.levels.len() > m && comes_first(
                    side,
                    rest[j].0@,
                    after.levels.last().0@,
                ))) ==> exists|k: int|
                    m <= k < after.levels.len() && #[trigger] after.levels[k] == rest[j]
        }),
    ensures
        after.levels.take(n) =~= before.levels,
        forall|k: int|
            n <= k < after.levels.len() ==> exists|j: int|
                0 <= j < levels.len() && (#[trigger] levels[j]).0 == (#[trigger] after.levels[k]).0
                    && 0 < after.levels[k].1@ <= levels[j].1@ && !beyond_limit(
                    side,
                    before.limit,
                    levels[j].0,
                ),
        forall|k: int, l: int|
            n <= k < l < after.levels.len() ==> comes_first(
                side,
                (#[trigger] after.levels[k]).0@,
                (#[trigger] after.levels[l]).0@,
            ),
        forall|j: int|
            0 <= j < levels.len() && (#[trigger] levels[j]).1@ > 0 && !beyond_limit(
                side,
                before.limit,
                levels[j].0,
            ) && (after.remaining@ > 0 || (after.levels.len() > n && comes_first(
                side,
                levels[j].0@,
                after.levels.last().0@,
            ))) ==> exists|k: int|
                n <= k < after.levels.len() && #[trigger] after.levels[k] == levels[j],
{
    let rest = levels.skip(1);
    let m = middle.len() as int;
    assert forall|j: int| 0 <= j < rest.len() implies rest[j] == levels[j + 1] by {}
    assert forall|k: int| 0 <= k < m implies #[trigger] after.levels[k] == middle[k] by {
        assert(after.levels.take(m)[k] == after.levels[k]);
    }
    assert(after.levels.take(n) =~= before.levels);
    if middle != before.levels {
        assert(m == n + 1);
        assert(middle[n] == levels[0]);
        assert(after.levels[n] == levels[0]);
    } else {
        assert(m == n);
    }
    assert forall|k: int| n <= k < after.levels.len() implies exists|j: int|
        0 <= j < levels.len() && (#[trigger] levels[j]).0 == (#[trigger] after.levels[k]).0 && 0
            < after.levels[k].1@ <= levels[j].1@ && !beyond_limit(
            side,
            before.limit,
            levels[j].0,
        ) by {
        if k < m {
            assert(after.levels[k] == levels[0]);
        } else {
            let j = choose|j: int|
                0 <= j < rest.len() && (#[trigger] rest[j]).0 == after.levels[k].0 && 0
                    < after.levels[k].1@ <= rest[j].1@ && !beyond_limit(
                    side,
                    before.limit,
                    rest[j].0,
                );
            assert(levels[j + 1] == rest[j]);
        }
    }
    assert forall|k: int, l: int| n <= k < l < after.levels.len() implies comes_first(
        side,
        (#[trigger] after.levels[k]).0@,
        (#[trigger] after.levels[l]).0@,
    ) by {
        if k < m {
            assert(after.levels[k] == levels[0]);
            let j = choose|j: int|
                0 <= j < rest.len() && (#[trigger] rest[j]).0 == after.levels[l].0 && 0
                    < after.levels[l].1@ <= rest[j].1@ && !beyond_limit(
                    side,
                    before.limit,
                    rest[j].0,
                );
            assert(comes_first(side, levels[0].0@, levels[j + 1].0@));
        }
    }
    assert forall|j: int|
        0 <= j < levels.len() && (#[trigger] levels[j]).1@ > 0 && !beyond_limit(
            side,
            before.limit,
            levels[j].0,
        ) && (after.remaining@ > 0 || (after.levels.len() > n && comes_first(
            side,
            levels[j].0@,
            after.levels.last().0@,
        ))) implies exists|k: int|
        n <= k < after.levels.len() && #[trigger] after.levels[k] == levels[j] by {
        if j == 0 {
            assert(after.levels[n] == levels[0]);
        } else {
            assert(rest[j - 1] == levels[j]);
            if after.levels.len() == m && after.remaining@ <= 0 {
                assert(after.levels.last() == levels[0]);
                assert(comes_first(side, levels[0].0@, levels[j].0@));
            }
            let k = choose|k: int|
                m <= k < after.levels.len() && #[trigger] after.levels[k] == rest[j - 1];
            assert(after.levels[k] == levels[j]);
        }
    }
}

/// The levels that a taker can trade against are those of the other side from its best price on, in
/// the order in which they come first.
proof fn lemma_levels_to_take(side: Side, book: Book)
    requires
        book.in_order(),
    ensures
        ({
            let levels = opposite_levels(side, book);
            let other = other_levels(side, book);
            &&& forall|a: int, b: int|
                0 <= a < b < levels.len() ==> comes_first(
                    side,
                    (#[trigger] levels[a]).0@,
                    (#[trigger] levels[b]).0@,
                )
            &&& forall|j: int|
                0 <= j < levels.len() ==> lookup(other, (#[trigger] levels[j]).0@) == Some(
                    levels[j].1,
                ) && (price_to_take(side, book) matches Some(best) && !comes_first(
                    side,
                    levels[j].0@,
                    best@,
                ))
            &&& forall|price: int|
                #![trigger lookup(other, price)]
                lookup(other, price) is Some && (price_to_take(side, book) matches Some(best)
                    && !comes_first(side, price, best@)) ==> exists|j: int|
                    0 <= j < levels.len() && (#[trigger] levels[j]).0@ == price && Some(levels[j].1)
                        == lookup(other, price)
        }),
{
    let levels = opposite_levels(side, book);
    let other = other_levels(side, book);
    if let Some(best) = price_to_take(side, book) {
        let from = match side {
            Side::Buy => below(other, best@),
            Side::Sell => below(other, best@ + 1),
        };
        lemma_below_splits(
            other,
            match side {
                Side::Buy => best@,
                Side::Sell => best@ + 1,
            },
        );
        assert forall|j: int| 0 <= j < levels.len() implies levels[j] == (match side {
            Side::Buy => other[from + j],
            Side::Sell => other[from - 1 - j],
        }) by {}
        assert forall|a: int, b: int| 0 <= a < b < levels.len() implies comes_first(
            side,
            (#[trigger] levels[a]).0@,
            (#[trigger] levels[b]).0@,
        ) by {
            match side {
                Side::Buy => {
                    assert(other[from + a].0.rank() < other[from + b].0.rank());
                },
                Side::Sell => {
                    assert(other[from - 1 - b].0.rank() < other[from - 1 - a].0.rank());
                },
            }
        }
        assert forall|j: int| 0 <= j < levels.len() implies lookup(
            other,
            (#[trigger] levels[j]).0@,
        ) == Some(levels[j].1) && !comes_first(side, levels[j].0@, best@) by {
            let at = match side {
                Side::Buy => from + j,
                Side::Sell => from - 1 - j,
            };
            lemma_lookup_entry(other, at);
            assert(other[at] == levels[j]);
        }
        assert forall|price: int|
            #![trigger lookup(other, price)]
            lookup(other, price) is Some && !comes_first(side, price, best@) implies exists|j: int|
            0 <= j < levels.len() && (#[trigger] levels[j]).0@ == price && Some(levels[j].1)
                == lookup(other, price) by {
            lemma_below_splits(other, price);
            let at = below(other, price);
            assert(other[at].0@ == price);
            let j = match side {
                Side::Buy => at - from,
                Side::Sell => from - 1 - at,
            };
            assert(levels[j] == other[at]);
        }
    }
}

/// An order that takes the market trades against the levels of the other side, from the best price
/// on, as far as it accepts their prices. Every trade it plans is at such a level and for no more
/// than the level holds, and the prices come in the order in which they come first. No level is
/// passed over: each one that comes before the last planned trade is taken whole, and where the plan
/// leaves something of the order, every level that it accepts is taken whole.
#[verifier::spinoff_prover]
#[verifier::rlimit(20)]
pub proof fn takers_trade_the_best_levels_first(
    order: Order,
    book: Book,
    levels: Seq<(Decimal, Decimal)>,
    remaining: Decimal,
)
    requires
        book.in_order(),
        nothing_is_left_of_itself(),
        planned(order, book) == Some((levels, remaining)),
    ensures
        ({
            let other = other_levels(order.side, book);
            &&& forall|k: int|
                0 <= k < levels.len() ==> {
                    let price = (#[trigger] levels[k]).0@;
                    &&& accepts(order, price)
                    &&& price_to_take(order.side, book) matches Some(best) && !comes_first(
                        order.side,
                        price,
                        best@,
                    )
                    &&& lookup(other, price) matches Some(qty) && 0 < levels[k].1@ <= qty@
                }
            &&& forall|k: int, l: int|
                0 <= k < l < levels.len() ==> comes_first(
                    order.side,
                    (#[trigger] levels[k]).0@,
                    (#[trigger] levels[l]).0@,
                )
            &&& forall|price: int|
                #![trigger lookup(other, price)]
                accepts(order, price) && (lookup(other, price) matches Some(qty) && qty@ > 0) && (
                price_to_take(order.side, book) matches Some(best) && !comes_first(
                    order.side,
                    price,
                    best@,
                )) && (remaining@ > 0 || (levels.len() > 0 && comes_first(
                    order.side,
                    price,
                    levels.last().0@,
                ))) ==> exists|k: int|
                    0 <= k < levels.len() && (#[trigger] levels[k]).0@ == price && Some(levels[k].1)
                        == lookup(other, price)
            &&& left_after(order.leaves_qty, levels) == Some(remaining)
        }),
{
    let offered = opposite_levels(order.side, book);
    let start = plan_start(order);
    let other = other_levels(order.side, book);
    lemma_levels_to_take(order.side, book);
    lemma_walk_takes(order.side, offered, start);
    lemma_walk_plans(offered, start, order.leaves_qty);
    let after = walked::<LiquidityPlan>(offered, start);
    assert(after.levels == levels && after.remaining == remaining);
    assert forall|price: int|
        #![trigger lookup(other, price)]
        accepts(order, price) && (lookup(other, price) matches Some(qty) && qty@ > 0) && (
        price_to_take(order.side, book) matches Some(best) && !comes_first(
            order.side,
            price,
            best@,
        )) && (remaining@ > 0 || (levels.len() > 0 && comes_first(
            order.side,
            price,
            levels.last().0@,
        ))) implies exists|k: int|
        0 <= k < levels.len() && (#[trigger] levels[k]).0@ == price && Some(levels[k].1) == lookup(
            other,
            price,
        ) by {
        let j = choose|j: int|
            0 <= j < offered.len() && (#[trigger] offered[j]).0@ == price && Some(offered[j].1)
                == lookup(other, price);
        assert(!beyond_limit(order.side, start.limit, offered[j].0));
        let k = choose|k: int|
            0 <= k < after.levels.len() && #[trigger] after.levels[k] == offered[j];
        assert(levels[k].0@ == price);
    }
}

} // verus!
