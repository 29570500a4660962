//! What can go wrong in a simulation.
use vstd::prelude::*;

use crate::rules::TickSizeError;

verus! {

/// Why a step of the simulation failed.
#[derive(Clone, Copy, Debug, PartialEq, Eq, Structural)]
pub enum BacktestError {
    /// There is an order with this identifier already.
    OrderIdExist,
    /// A request for the order is still under way.
    OrderRequestInProcess,
    /// There is no such order.
    OrderNotFound,
    /// The request cannot be made.
    InvalidOrderRequest,
    /// The order is in a state in which this cannot be done.
    InvalidOrderStatus,
    /// There is no more data.
    EndOfData,
    /// Data could not be loaded.
    DataError,
    /// No tick size applies.
    TickSize(TickSizeError),
    /// A latency is negative.
    NegativeLatency,
    /// A number cannot be held.
    Overflow,
}

impl BacktestError {
    /// Whether a request is refused before it changes anything.
    pub open spec fn refuses(self) -> bool {
        self is OrderIdExist || self is TickSize || self is InvalidOrderRequest
    }
}

} // verus!
