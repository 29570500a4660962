//! The words that the exchange's messages use.
use vstd::prelude::*;
use vstd::string::*;

use crate::types::OrdType;
use crate::types::PriceMatch;
use crate::types::Side;
use crate::types::Status;
use crate::types::TimeInForce;

verus! {

/// A word that a message should not hold.
#[derive(Debug)]
pub struct UnexpectedWord {
    /// The word.
    pub found: String,
    /// What was expected.
    pub expected: &'static str,
}

/// Whether a text reads like another one.
fn reads(text: &str, other: &str) -> (r: bool)
    ensures
        r == (text@ == other@),
{
    text.to_owned() == other.to_owned()
}

/// The side that a word stands for.
pub open spec fn side_of(word: Seq<char>) -> Option<Side> {
    if word == "BUY"@ {
        Some(Side::Buy)
    } else if word == "SELL"@ {
        Some(Side::Sell)
    } else {
        None
    }
}

/// Reads a side.
pub fn from_str_to_side(word: &str) -> (r: Result<Side, UnexpectedWord>)
    ensures
        match side_of(word@) {
            Some(side) => r is Ok && r->Ok_0 == side,
            None => r is Err && r->Err_0.found@ == word@ && r->Err_0.expected@ == "BUY or SELL"@,
        },
{
    if reads(word, "BUY") {
        Ok(Side::Buy)
    } else if reads(word, "SELL") {
        Ok(Side::Sell)
    } else {
        Err(UnexpectedWord { found: word.to_owned(), expected: "BUY or SELL" })
    }
}

/// The status that a word stands for.
pub open spec fn status_of(word: Seq<char>) -> Option<Status> {
    if word == "NEW"@ {
        Some(Status::New)
    } else if word == "PARTIALLY_FILLED"@ {
        Some(Status::PartiallyFilled)
    } else if word == "FILLED"@ {
        Some(Status::Filled)
    } else if word == "CANCELED"@ {
        Some(Status::Canceled)
    } else if word == "EXPIRED"@ {
        Some(Status::Expired)
    } else {
        None
    }
}

/// Reads a status.
pub fn from_str_to_status(word: &str) -> (r: Result<Status, UnexpectedWord>)
    ensures
        match status_of(word@) {
            Some(status) => r is Ok && r->Ok_0 == status,
            None => r is Err && r->Err_0.found@ == word@ && r->Err_0.expected@
                == "NEW,PARTIALLY_FILLED,FILLED,CANCELED,EXPIRED"@,
        },
{
    if reads(word, "NEW") {
        Ok(Status::New)
    } else if reads(word, "PARTIALLY_FILLED") {
        Ok(Status::PartiallyFilled)
    } else if reads(word, "FILLED") {
        Ok(Status::Filled)
    } else if reads(word, "CANCELED") {
        Ok(Status::Canceled)
    } else if reads(word, "EXPIRED") {
        Ok(Status::Expired)
    } else {
        Err(
            UnexpectedWord {
                found: word.to_owned(),
                expected: "NEW,PARTIALLY_FILLED,FILLED,CANCELED,EXPIRED",
            },
        )
    }
}

/// The type of order that a word stands for.
pub open spec fn type_of(word: Seq<char>) -> Option<OrdType> {
    if word == "LIMIT"@ {
        Some(OrdType::Limit)
    } else if word == "MARKET"@ {
        Some(OrdType::Market)
    } else {
        None
    }
}

/// Reads a type of order.
pub fn from_str_to_type(word: &str) -> (r: Result<OrdType, UnexpectedWord>)
    ensures
        match type_of(word@) {
            Some(order_type) => r is Ok && r->Ok_0 == order_type,
            None => r is Err && r->Err_0.found@ == word@ && r->Err_0.expected@ == "LIMIT,MARKET"@,
        },
{
    if reads(word, "LIMIT") {
        Ok(OrdType::Limit)
    } else if reads(word, "MARKET") {
        Ok(OrdType::Market)
    } else {
        Err(UnexpectedWord { found: word.to_owned(), expected: "LIMIT,MARKET" })
    }
}

/// The time in force that a word stands for.
pub open spec fn tif_of(word: Seq<char>) -> Option<TimeInForce> {
    if word == "GTC"@ {
        Some(TimeInForce::GTC)
    } else if word == "IOC"@ {
        Some(TimeInForce::IOC)
    } else if word == "FOK"@ {
        Some(TimeInForce::FOK)
    } else if word == "GTX"@ {
        Some(TimeInForce::GTX)
    } else {
        None
    }
}

/// Reads a time in force.
pub fn from_str_to_tif(word: &str) -> (r: Result<TimeInForce, UnexpectedWord>)
    ensures
        match tif_of(word@) {
            Some(time_in_force) => r is Ok && r->Ok_0 == time_in_force,
            None => r is Err && r->Err_0.found@ == word@ && r->Err_0.expected@
                == "GTC,IOC,FOK,GTX"@,
        },
{
    if reads(word, "GTC") {
        Ok(TimeInForce::GTC)
    } else if reads(word, "IOC") {
        Ok(TimeInForce::IOC)
    } else if reads(word, "FOK") {
        Ok(TimeInForce::FOK)
    } else if reads(word, "GTX") {
        Ok(TimeInForce::GTX)
    } else {
        Err(UnexpectedWord { found: word.to_owned(), expected: "GTC,IOC,FOK,GTX" })
    }
}

/// The rule for a price that a word stands for.
pub open spec fn price_match_of(word: Seq<char>) -> Option<PriceMatch> {
    if word == "NONE"@ {
        Some(PriceMatch::Explicit)
    } else if word == "OPPONENT"@ {
        Some(PriceMatch::Opponent)
    } else if word == "OPPONENT_5"@ {
        Some(PriceMatch::Opponent5)
    } else if word == "OPPONENT_10"@ {
        Some(PriceMatch::Opponent10)
    } else if word == "OPPONENT_20"@ {
        Some(PriceMatch::Opponent20)
    } else if word == "QUEUE"@ {
        Some(PriceMatch::Queue)
    } else if word == "QUEUE_5"@ {
        Some(PriceMatch::Queue5)
    } else if word == "QUEUE_10"@ {
        Some(PriceMatch::Queue10)
    } else if word == "QUEUE_20"@ {
        Some(PriceMatch::Queue20)
    } else {
        None
    }
}

/// Reads a rule for a price.
pub fn from_str_to_price_match(word: &str) -> (r: Result<PriceMatch, UnexpectedWord>)
    ensures
        match price_match_of(word@) {
            Some(price_match) => r is Ok && r->Ok_0 == price_match,
            None => r is Err && r->Err_0.found@ == word@ && r->Err_0.expected@
                == "NONE,OPPONENT,OPPONENT_5,OPPONENT_10,OPPONENT_20,QUEUE,QUEUE_5,QUEUE_10,QUEUE_20"@,
        },
{
    if reads(word, "NONE") {
        Ok(PriceMatch::Explicit)
    } else if reads(word, "OPPONENT") {
        Ok(PriceMatch::Opponent)
    } else if reads(word, "OPPONENT_5") {
        Ok(PriceMatch::Opponent5)
    } else if reads(word, "OPPONENT_10") {
        Ok(PriceMatch::Opponent10)
    } else if reads(word, "OPPONENT_20") {
        Ok(PriceMatch::Opponent20)
    } else if reads(word, "QUEUE") {
        Ok(PriceMatch::Queue)
    } else if reads(word, "QUEUE_5") {
        Ok(PriceMatch::Queue5)
    } else if reads(word, "QUEUE_10") {
        Ok(PriceMatch::Queue10)
    } else if reads(word, "QUEUE_20") {
        Ok(PriceMatch::Queue20)
    } else {
        Err(
            UnexpectedWord {
                found: word.to_owned(),
                expected: "NONE,OPPONENT,OPPONENT_5,OPPONENT_10,OPPONENT_20,QUEUE,QUEUE_5,QUEUE_10,QUEUE_20",
            },
        )
    }
}

/// Every rule for a price is read from its own name.
pub proof fn price_match_names_are_read_back(price_match: PriceMatch)
    ensures
        price_match_of(price_match.name()) == Some(price_match),
{
    reveal_strlit("NONE");
    reveal_strlit("OPPONENT");
    reveal_strlit("OPPONENT_5");
    reveal_strlit("OPPONENT_10");
    reveal_strlit("OPPONENT_20");
    reveal_strlit("QUEUE");
    reveal_strlit("QUEUE_5");
    reveal_strlit("QUEUE_10");
    reveal_strlit("QUEUE_20");
    assert("NONE"@.len() == 4 && "QUEUE"@.len() == 5 && "QUEUE_5"@.len() == 7);
    assert("OPPONENT"@.len() == 8 && "QUEUE_10"@.len() == 8 && "QUEUE_20"@.len() == 8);
    assert("OPPONENT_5"@.len() == 10);
    assert("OPPONENT_10"@.len() == 11 && "OPPONENT_20"@.len() == 11);
    assert("OPPONENT_10"@[9] != "OPPONENT_20"@[9]);
    assert("QUEUE_10"@[6] != "QUEUE_20"@[6]);
    assert("QUEUE_10"@[0] != "OPPONENT"@[0]);
    assert("QUEUE_20"@[0] != "OPPONENT"@[0]);
}

/// Every side, type of order and time in force has a word of its own, and so has every status that a
/// message can tell; another word stands for none.
pub proof fn words_stand_for_one_thing(word: Seq<char>)
    ensures
        side_of("BUY"@) == Some(Side::Buy),
        side_of("SELL"@) == Some(Side::Sell),
        side_of(word) is Some ==> word == "BUY"@ || word == "SELL"@,
        type_of("LIMIT"@) == Some(OrdType::Limit),
        type_of("MARKET"@) == Some(OrdType::Market),
        type_of(word) is Some ==> word == "LIMIT"@ || word == "MARKET"@,
        tif_of("GTC"@) == Some(TimeInForce::GTC),
        tif_of("IOC"@) == Some(TimeInForce::IOC),
        tif_of("FOK"@) == Some(TimeInForce::FOK),
        tif_of("GTX"@) == Some(TimeInForce::GTX),
        tif_of(word) is Some ==> word == "GTC"@ || word == "IOC"@ || word == "FOK"@ || word
            == "GTX"@,
        status_of("NEW"@) == Some(Status::New),
        status_of("PARTIALLY_FILLED"@) == Some(Status::PartiallyFilled),
        status_of("FILLED"@) == Some(Status::Filled),
        status_of("CANCELED"@) == Some(Status::Canceled),
        status_of("EXPIRED"@) == Some(Status::Expired),
        status_of(word) is Some ==> word == "NEW"@ || word == "PARTIALLY_FILLED"@ || word
            == "FILLED"@ || word == "CANCELED"@ || word == "EXPIRED"@,
{
    reveal_strlit("BUY");
    reveal_strlit("SELL");
    reveal_strlit("LIMIT");
    reveal_strlit("MARKET");
    reveal_strlit("GTC");
    reveal_strlit("IOC");
    reveal_strlit("FOK");
    reveal_strlit("GTX");
    reveal_strlit("NEW");
    reveal_strlit("PARTIALLY_FILLED");
    reveal_strlit("FILLED");
    reveal_strlit("CANCELED");
    reveal_strlit("EXPIRED");
    assert("BUY"@.len() == 3 && "SELL"@.len() == 4);
    assert("LIMIT"@.len() == 5 && "MARKET"@.len() == 6);
    assert("GTC"@[0] == 'G' && "GTC"@[2] == 'C');
    assert("IOC"@[0] == 'I');
    assert("FOK"@[0] == 'F');
    assert("GTX"@[0] == 'G' && "GTX"@[2] == 'X');
    assert("NEW"@.len() == 3 && "PARTIALLY_FILLED"@.len() == 16 && "FILLED"@.len() == 6
        && "CANCELED"@.len() == 8 && "EXPIRED"@.len() == 7);
}

} // verus!
