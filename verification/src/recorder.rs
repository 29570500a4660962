//! Records the state values of a strategy over time.
use vstd::prelude::*;

use crate::decimal::Decimal;
use crate::decimal::a_decimal_is_its_parts;
use crate::decimal::exact_quotient;
use crate::decimal::exact_sum;
use crate::decimal::lemma_pow10_positive;
use crate::decimal::pow10;
use crate::error::BacktestError;
use crate::types::StateValues;

verus! {

/// What is recorded of an asset at a time.
#[derive(Clone, Copy, Debug)]
pub struct Record {
    /// The time.
    pub timestamp: i64,
    /// The mid price, where there are both a bid and an ask.
    pub price: Option<Decimal>,
    /// The position.
    pub position: Decimal,
    /// The balance.
    pub balance: Decimal,
    /// The fees.
    pub fee: Decimal,
    /// The number of trades.
    pub num_trades: i64,
    /// The traded volume.
    pub trading_volume: Decimal,
    /// The traded value.
    pub trading_value: Decimal,
}

/// What a recorder sees of an asset.
#[derive(Clone, Copy, Debug)]
pub struct AssetView {
    /// The best bid.
    pub best_bid: Option<Decimal>,
    /// The best ask.
    pub best_ask: Option<Decimal>,
    /// The state values.
    pub state_values: StateValues,
}

/// The price in the middle between the best bid and the best ask, where there are both. There is an
/// error where it cannot be held.
pub open spec fn mid_price(best_bid: Option<Decimal>, best_ask: Option<Decimal>) -> Result<
    Option<Decimal>,
    BacktestError,
> {
    match (best_bid, best_ask) {
        (Some(bid), Some(ask)) => match bid.sum(ask) {
            None => Err(BacktestError::Overflow),
            Some(both) => match both.quotient(Decimal::whole(2)) {
                None => Err(BacktestError::Overflow),
                Some(mid) => Ok(Some(mid)),
            },
        },
        _ => Ok(None),
    }
}

/// The price in the middle between the best bid and the best ask.
fn find_mid_price(best_bid: Option<Decimal>, best_ask: Option<Decimal>) -> (r: Result<
    Option<Decimal>,
    BacktestError,
>)
    ensures
        r == mid_price(best_bid, best_ask),
{
    let (bid, ask): (Decimal, Decimal) = match (best_bid, best_ask) {
        (Some(bid), Some(ask)) => (bid, ask),
        _ => {
            return Ok(None);
        },
    };
    match bid.checked_add(ask) {
        None => Err(BacktestError::Overflow),
        Some(both) => match both.checked_div(Decimal::from_int(2)) {
            None => Err(BacktestError::Overflow),
            Some(mid) => Ok(Some(mid)),
        },
    }
}

/// What is recorded of an asset.
pub open spec fn record_of(timestamp: i64, asset: AssetView) -> Result<Record, BacktestError> {
    match mid_price(asset.best_bid, asset.best_ask) {
        Err(error) => Err(error),
        Ok(price) => Ok(
            Record {
                timestamp,
                price,
                position: asset.state_values.position,
                balance: asset.state_values.balance,
                fee: asset.state_values.fee,
                num_trades: asset.state_values.num_trades,
                trading_volume: asset.state_values.trading_volume,
                trading_value: asset.state_values.trading_value,
            },
        ),
    }
}

/// Whether an asset and all in front of it can be recorded.
pub open spec fn all_recorded(timestamp: i64, assets: Seq<AssetView>, k: int) -> bool {
    forall|j: int| 0 <= j <= k ==> record_of(timestamp, #[trigger] assets[j]) is Ok
}

/// Provides recording of the backtesting strategy's state values, which are needed to compute
/// performance metrics.
#[derive(Debug)]
pub struct BacktestRecorder {
    /// The records of each asset.
    pub values: Vec<Vec<Record>>,
}

impl BacktestRecorder {
    /// Constructs an instance of `BacktestRecorder`.
    pub fn new(num_assets: usize) -> (r: BacktestRecorder)
        ensures
            r.values@.len() == num_assets,
            forall|i: int| 0 <= i < num_assets ==> (#[trigger] r.values@[i])@.len() == 0,
    {
        let mut values: Vec<Vec<Record>> = Vec::new();
        let mut i: usize = 0;
        while i < num_assets
            invariant
                i <= num_assets,
                values@.len() == i,
                forall|k: int| 0 <= k < i ==> (#[trigger] values@[k])@.len() == 0,
            decreases num_assets - i,
        {
            values.push(Vec::new());
            i = i + 1;
        }
        BacktestRecorder { values }
    }

    /// Records an asset.
    fn record_asset(&mut self, asset_no: usize, timestamp: i64, asset: &AssetView) -> (r: Result<
        (),
        BacktestError,
    >)
        requires
            asset_no < old(self).values@.len(),
        ensures
            final(self).values@.len() == old(self).values@.len(),
            forall|k: int|
                0 <= k < old(self).values@.len() && k != asset_no ==> (
                #[trigger] final(self).values@[k]) == old(self).values@[k],
            match record_of(timestamp, *asset) {
                Ok(record) => r is Ok && final(self).values@[asset_no as int]@ == old(
                    self,
                ).values@[asset_no as int]@.push(record),
                Err(error) => r == Err::<(), BacktestError>(error)
                    && final(self).values@[asset_no as int]@ == old(
                    self,
                ).values@[asset_no as int]@,
            },
    {
        let price: Option<Decimal> = match find_mid_price(asset.best_bid, asset.best_ask) {
            Ok(price) => price,
            Err(error) => {
                return Err(error);
            },
        };
        self.values[asset_no].push(
            Record {
                timestamp,
                price,
                position: asset.state_values.position,
                balance: asset.state_values.balance,
                fee: asset.state_values.fee,
                num_trades: asset.state_values.num_trades,
                trading_volume: asset.state_values.trading_volume,
                trading_value: asset.state_values.trading_value,
            },
        );
        Ok(())
    }

    /// Records the assets at a time, one after the other. There is an error at the first one whose
    /// mid price cannot be held; those in front of it are recorded.
    pub fn record(&mut self, timestamp: i64, assets: &Vec<AssetView>) -> (r: Result<
        (),
        BacktestError,
    >)
        requires
            assets@.len() <= old(self).values@.len(),
        ensures
            final(self).values@.len() == old(self).values@.len(),
            r is Ok == (forall|k: int|
                0 <= k < assets@.len() ==> record_of(timestamp, #[trigger] assets@[k]) is Ok),
            r matches Err(error) ==> error == BacktestError::Overflow,
            forall|k: int|
                0 <= k < old(self).values@.len() ==> (#[trigger] final(self).values@[k])@ == if k
                    < assets@.len() && all_recorded(timestamp, assets@, k) {
                    old(self).values@[k]@.push(record_of(timestamp, assets@[k])->Ok_0)
                } else {
                    old(self).values@[k]@
                },
    {
        let mut i: usize = 0;
        while i < assets.len()
            invariant
                i <= assets@.len(),
                assets@.len() <= old(self).values@.len(),
                self.values@.len() == old(self).values@.len(),
                forall|k: int| 0 <= k < i ==> record_of(timestamp, #[trigger] assets@[k]) is Ok,
                forall|k: int|
                    0 <= k < i ==> (#[trigger] self.values@[k])@ == old(self).values@[k]@.push(
                        record_of(timestamp, assets@[k])->Ok_0,
                    ),
                forall|k: int|
                    i <= k < old(self).values@.len() ==> (#[trigger] self.values@[k]) == old(
                        self,
                    ).values@[k],
            decreases assets@.len() - i,
        {
            match self.record_asset(i, timestamp, &assets[i]) {
                Ok(()) => {},
                Err(error) => {
                    assert(!(record_of(timestamp, assets@[i as int]) is Ok));
                    return Err(error);
                },
            }
            i = i + 1;
        }
        Ok(())
    }
}

/// The mid price is as far above the best bid as it is below the best ask, where nothing is rounded;
/// without one of them there is none. A record holds the values of the asset as they are.
pub proof fn records_hold_the_middle_and_the_values(
    timestamp: i64,
    asset: AssetView,
    bid: Decimal,
    ask: Decimal,
    both: Decimal,
    mid: Decimal,
)
    requires
        exact_sum(bid, ask, both),
        exact_quotient(both, Decimal::whole(2), mid),
    ensures
        asset.best_bid == Some(bid) && asset.best_ask == Some(ask) ==> (record_of(
            timestamp,
            asset,
        ) matches Ok(record) && record.price == Some(mid)),
        2 * mid@ == bid@ + ask@,
        asset.best_bid is None || asset.best_ask is None ==> (record_of(timestamp, asset) matches Ok(
            record,
        ) && record.price is None),
        record_of(timestamp, asset) matches Ok(record) ==> {
            &&& record.timestamp == timestamp
            &&& record.position == asset.state_values.position
            &&& record.balance == asset.state_values.balance
            &&& record.fee == asset.state_values.fee
            &&& record.num_trades == asset.state_values.num_trades
            &&& record.trading_volume == asset.state_values.trading_volume
            &&& record.trading_value == asset.state_values.trading_value
        },
{
    lemma_pow10_positive(28);
    let unit = pow10(28);
    a_decimal_is_its_parts(Decimal::whole(2), 2, 0);
    assert(Decimal::whole(2)@ == 2 * unit);
    assert(mid@ * (2 * unit) == both@ * unit ==> 2 * mid@ == both@) by (nonlinear_arith)
        requires
            unit > 0,
    ;
}

} // verus!
