//! What the exchange and the local side do with events and orders.
pub mod local;
pub mod local_laws;
pub mod market_flags;
pub mod modify;
pub mod nopartialfillexchange;
pub mod partial_fill_laws;
pub mod partialfillexchange;
pub mod price_match;
pub mod taker_laws;
pub mod venue;
pub mod whole_fill_laws;
