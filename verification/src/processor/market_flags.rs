//! What the flags of market events say to an exchange.
use vstd::prelude::*;

use crate::types::BUY_EVENT;
use crate::types::DEPTH_CLEAR_EVENT;
use crate::types::DEPTH_EVENT;
use crate::types::DEPTH_SNAPSHOT_EVENT;
use crate::types::EXCH_ASK_DEPTH_CLEAR_EVENT;
use crate::types::EXCH_ASK_DEPTH_EVENT;
use crate::types::EXCH_ASK_DEPTH_SNAPSHOT_EVENT;
use crate::types::EXCH_BID_DEPTH_CLEAR_EVENT;
use crate::types::EXCH_BID_DEPTH_EVENT;
use crate::types::EXCH_BID_DEPTH_SNAPSHOT_EVENT;
use crate::types::EXCH_BUY_TRADE_EVENT;
use crate::types::EXCH_DEPTH_CLEAR_EVENT;
use crate::types::EXCH_EVENT;
use crate::types::EXCH_SELL_TRADE_EVENT;
use crate::types::Event;
use crate::types::SELL_EVENT;
use crate::types::Side;
use crate::types::TRADE_EVENT;
use crate::types::flag_is;
use crate::types::kind_of;

verus! {

/// Whether an event has the flag of a side. One with both flags is taken for a buy.
pub open spec fn of_side(ev: u64, side: Side) -> bool {
    match side {
        Side::Buy => ev & BUY_EVENT != 0,
        Side::Sell => ev & BUY_EVENT == 0 && ev & SELL_EVENT != 0,
    }
}

/// Whether an event is a trade on the exchange by a buyer or a seller.
pub open spec fn is_exchange_trade(event: Event, side: Side) -> bool {
    kind_of(event.ev) == TRADE_EVENT && event.ev & EXCH_EVENT != 0 && of_side(event.ev, side)
}

/// Whether an event sets a level of one side on the exchange, alone or in a snapshot.
pub open spec fn is_exchange_level(event: Event, side: Side) -> bool {
    (kind_of(event.ev) == DEPTH_EVENT || kind_of(event.ev) == DEPTH_SNAPSHOT_EVENT) && event.ev
        & EXCH_EVENT != 0 && of_side(event.ev, side)
}

/// Whether an event clears one side on the exchange.
pub open spec fn is_exchange_clear(event: Event, side: Side) -> bool {
    kind_of(event.ev) == DEPTH_CLEAR_EVENT && event.ev & EXCH_EVENT != 0 && of_side(event.ev, side)
}

/// What the flags of market data say, bit by bit.
pub proof fn lemma_exchange_flags(ev: u64)
    ensures
        flag_is(ev, EXCH_BUY_TRADE_EVENT) == (kind_of(ev) == TRADE_EVENT && ev & EXCH_EVENT != 0
            && ev & BUY_EVENT != 0),
        flag_is(ev, EXCH_SELL_TRADE_EVENT) == (kind_of(ev) == TRADE_EVENT && ev & EXCH_EVENT != 0
            && ev & SELL_EVENT != 0),
        flag_is(ev, EXCH_BID_DEPTH_EVENT) == (kind_of(ev) == DEPTH_EVENT && ev & EXCH_EVENT != 0
            && ev & BUY_EVENT != 0),
        flag_is(ev, EXCH_ASK_DEPTH_EVENT) == (kind_of(ev) == DEPTH_EVENT && ev & EXCH_EVENT != 0
            && ev & SELL_EVENT != 0),
        flag_is(ev, EXCH_BID_DEPTH_SNAPSHOT_EVENT) == (kind_of(ev) == DEPTH_SNAPSHOT_EVENT && ev
            & EXCH_EVENT != 0 && ev & BUY_EVENT != 0),
        flag_is(ev, EXCH_ASK_DEPTH_SNAPSHOT_EVENT) == (kind_of(ev) == DEPTH_SNAPSHOT_EVENT && ev
            & EXCH_EVENT != 0 && ev & SELL_EVENT != 0),
        flag_is(ev, EXCH_BID_DEPTH_CLEAR_EVENT) == (kind_of(ev) == DEPTH_CLEAR_EVENT && ev
            & EXCH_EVENT != 0 && ev & BUY_EVENT != 0),
        flag_is(ev, EXCH_ASK_DEPTH_CLEAR_EVENT) == (kind_of(ev) == DEPTH_CLEAR_EVENT && ev
            & EXCH_EVENT != 0 && ev & SELL_EVENT != 0),
        flag_is(ev, EXCH_DEPTH_CLEAR_EVENT) == (kind_of(ev) == DEPTH_CLEAR_EVENT && ev & EXCH_EVENT
            != 0),
{
    assert({
        &&& flag_is(ev, EXCH_BUY_TRADE_EVENT) == (ev & 0xff == 2 && ev & EXCH_EVENT != 0 && ev
            & BUY_EVENT != 0)
        &&& flag_is(ev, EXCH_SELL_TRADE_EVENT) == (ev & 0xff == 2 && ev & EXCH_EVENT != 0 && ev
            & SELL_EVENT != 0)
        &&& flag_is(ev, EXCH_BID_DEPTH_EVENT) == (ev & 0xff == 1 && ev & EXCH_EVENT != 0 && ev
            & BUY_EVENT != 0)
        &&& flag_is(ev, EXCH_ASK_DEPTH_EVENT) == (ev & 0xff == 1 && ev & EXCH_EVENT != 0 && ev
            & SELL_EVENT != 0)
        &&& flag_is(ev, EXCH_BID_DEPTH_SNAPSHOT_EVENT) == (ev & 0xff == 4 && ev & EXCH_EVENT != 0
            && ev & BUY_EVENT != 0)
        &&& flag_is(ev, EXCH_ASK_DEPTH_SNAPSHOT_EVENT) == (ev & 0xff == 4 && ev & EXCH_EVENT != 0
            && ev & SELL_EVENT != 0)
        &&& flag_is(ev, EXCH_BID_DEPTH_CLEAR_EVENT) == (ev & 0xff == 3 && ev & EXCH_EVENT != 0 && ev
            & BUY_EVENT != 0)
        &&& flag_is(ev, EXCH_ASK_DEPTH_CLEAR_EVENT) == (ev & 0xff == 3 && ev & EXCH_EVENT != 0 && ev
            & SELL_EVENT != 0)
        &&& flag_is(ev, EXCH_DEPTH_CLEAR_EVENT) == (ev & 0xff == 3 && ev & EXCH_EVENT != 0)
    }) by (bit_vector);
}

} // verus!
