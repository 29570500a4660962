//! What both exchange models share.
use vstd::prelude::*;

use crate::decimal::Decimal;
use crate::depth::Book;
use crate::rules::TickSizeChange;
use crate::types::Side;

verus! {

/// The models and rules of an exchange, which do not change.
pub struct Venue<AT, FM, QM> {
    /// The type of the asset.
    pub asset_type: AT,
    /// The fee model.
    pub fee_model: FM,
    /// The queue model.
    pub queue_model: QM,
    /// The tick sizes.
    pub changes: Seq<TickSizeChange>,
}

/// What happens in the market that can fill resting orders.
#[derive(Clone, Copy, Debug)]
pub enum Trigger {
    /// The best bid rose to this price.
    BestBid(Decimal),
    /// The best ask fell to this price.
    BestAsk(Decimal),
    /// A buyer traded at this price and quantity.
    BuyTrade(Decimal, Decimal),
    /// A seller traded at this price and quantity.
    SellTrade(Decimal, Decimal),
}

/// The best price of the other side.
pub open spec fn best_opposite(side: Side, book: Book) -> Option<Decimal> {
    match side {
        Side::Buy => book.best_ask,
        Side::Sell => book.best_bid,
    }
}

/// Whether a best price is better than the one before: above it for bids, below it for asks.
pub open spec fn improved(side: Side, best: Option<Decimal>, previous: Option<Decimal>) -> bool {
    match (best, previous) {
        (None, _) => false,
        (Some(_), None) => true,
        (Some(now), Some(before)) => match side {
            Side::Buy => now@ > before@,
            Side::Sell => now@ < before@,
        },
    }
}

/// Whether a best price is better than the one before.
pub fn is_improved(side: Side, best: Option<Decimal>, previous: Option<Decimal>) -> (r: bool)
    ensures
        r == improved(side, best, previous),
{
    match best {
        None => false,
        Some(now) => match previous {
            None => true,
            Some(before) => match side {
                Side::Buy => before.lt(now),
                Side::Sell => now.lt(before),
            },
        },
    }
}

} // verus!
