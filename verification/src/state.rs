//! What a trader holds.
use vstd::prelude::*;

use crate::assettype::AssetType;
use crate::decimal::Decimal;
use crate::decimal::exact_difference;
use crate::decimal::exact_sum;
use crate::decimal::lemma_negated;
use crate::decimal::proper;
use crate::error::BacktestError;
use crate::lifecycle::OrderFill;
use crate::models::fee::FeeModel;
use crate::types::Side;
use crate::types::StateValues;

verus! {

/// A quantity that is bought, or the negated one that is sold.
pub open spec fn signed(side: Side, qty: Decimal) -> Decimal {
    match side {
        Side::Buy => qty,
        Side::Sell => qty.negated(),
    }
}

/// A quantity that is bought, or the negated one that is sold.
fn sign_of(side: Side, qty: Decimal) -> (r: Decimal)
    ensures
        r == signed(side, qty),
        r@ == side.sign_spec() * qty@,
{
    match side {
        Side::Buy => qty,
        Side::Sell => qty.neg(),
    }
}

/// What a trader holds, and the models by which it is valued.
#[derive(Clone, Copy, Debug)]
pub struct State<AT, FM> {
    /// The values.
    pub state_values: StateValues,
    /// The type of the asset.
    pub asset_type: AT,
    /// The fee model.
    pub fee_model: FM,
}

/// The values after a fill, where every one of them can be held.
pub open spec fn filled_values<AT: AssetType, FM: FeeModel>(
    values: StateValues,
    asset_type: AT,
    fee_model: FM,
    side: Side,
    fill: OrderFill,
) -> Option<StateValues> {
    match asset_type.amount_of(fill.price, fill.qty) {
        None => None,
        Some(amount) => match (
            values.position.sum(signed(side, fill.qty)),
            values.balance.difference(signed(side, amount)),
            fee_model.fee_of(fill, side, amount),
            values.trading_volume.sum(fill.qty),
            values.trading_value.sum(amount),
        ) {
            (
                Some(position),
                Some(balance),
                Some(charge),
                Some(trading_volume),
                Some(trading_value),
            ) => match values.fee.sum(charge) {
                None => None,
                Some(fee) => if values.num_trades == i64::MAX {
                    None
                } else {
                    Some(
                        StateValues {
                            position,
                            balance,
                            fee,
                            num_trades: (values.num_trades + 1) as i64,
                            trading_volume,
                            trading_value,
                        },
                    )
                },
            },
            _ => None,
        },
    }
}

/// The values after a row of fills.
pub open spec fn all_filled_values<AT: AssetType, FM: FeeModel>(
    values: StateValues,
    asset_type: AT,
    fee_model: FM,
    side: Side,
    fills: Seq<OrderFill>,
) -> Option<StateValues>
    decreases fills.len(),
{
    if fills.len() == 0 {
        Some(values)
    } else {
        match all_filled_values(values, asset_type, fee_model, side, fills.drop_last()) {
            None => None,
            Some(before) => filled_values(before, asset_type, fee_model, side, fills.last()),
        }
    }
}

impl<AT: AssetType, FM: FeeModel> State<AT, FM> {
    /// Starts without a position.
    pub fn new(asset_type: AT, fee_model: FM) -> (r: State<AT, FM>)
        ensures
            r.state_values == StateValues::initial(),
            r.asset_type == asset_type,
            r.fee_model == fee_model,
    {
        State {
            state_values: StateValues {
                position: Decimal::zero(),
                balance: Decimal::zero(),
                fee: Decimal::zero(),
                num_trades: 0,
                trading_volume: Decimal::zero(),
                trading_value: Decimal::zero(),
            },
            asset_type,
            fee_model,
        }
    }

    /// The values after a fill.
    pub open spec fn after_fill(&self, side: Side, fill: OrderFill) -> Option<StateValues> {
        filled_values(self.state_values, self.asset_type, self.fee_model, side, fill)
    }

    /// Calculates the values after a fill.
    fn values_after_fill(&self, side: Side, fill: &OrderFill) -> (r: Option<StateValues>)
        ensures
            r == self.after_fill(side, *fill),
            r matches Some(values) ==> self.state_values.position.adds_exactly(
                signed(side, fill.qty),
            ) ==> values.position@ == self.state_values.position@ + side.sign_spec() * fill.qty@,
    {
        let values: StateValues = self.state_values;
        let amount: Decimal = self.asset_type.amount(fill.price, fill.qty)?;
        let position: Decimal = values.position.checked_add(sign_of(side, fill.qty))?;
        let balance: Decimal = values.balance.checked_sub(sign_of(side, amount))?;
        let charge: Decimal = self.fee_model.amount(fill, side, amount)?;
        let trading_volume: Decimal = values.trading_volume.checked_add(fill.qty)?;
        let trading_value: Decimal = values.trading_value.checked_add(amount)?;
        let fee: Decimal = values.fee.checked_add(charge)?;
        let num_trades: i64 = values.num_trades.checked_add(1)?;
        Some(StateValues { position, balance, fee, num_trades, trading_volume, trading_value })
    }

    /// Applies a fill. There is an error where a value cannot be held, and the values stay as they
    /// were. Where the sum is exact the position moves by exactly the filled quantity.
    pub fn apply_fill(&mut self, side: Side, order_fill: &OrderFill) -> (r: Result<
        (),
        BacktestError,
    >)
        ensures
            final(self).asset_type == old(self).asset_type,
            final(self).fee_model == old(self).fee_model,
            match old(self).after_fill(side, *order_fill) {
                Some(values) => r is Ok && final(self).state_values == values,
                None => r == Err::<(), BacktestError>(BacktestError::Overflow)
                    && final(self).state_values == old(self).state_values,
            },
            r is Ok && old(self).state_values.position.adds_exactly(signed(side, order_fill.qty))
                ==> final(self).state_values.position@ == old(self).state_values.position@
                + side.sign_spec() * order_fill.qty@,
    {
        match self.values_after_fill(side, order_fill) {
            Some(values) => {
                self.state_values = values;
                Ok(())
            },
            None => Err(BacktestError::Overflow),
        }
    }

    /// The equity at a price.
    pub fn equity(&self, mid: Decimal) -> (r: Option<Decimal>)
        ensures
            r == self.asset_type.equity_of(
                mid,
                self.state_values.balance,
                self.state_values.position,
                self.state_values.fee,
            ),
    {
        self.asset_type.equity(
            mid,
            self.state_values.balance,
            self.state_values.position,
            self.state_values.fee,
        )
    }

    /// The values.
    pub fn values(&self) -> (r: &StateValues)
        ensures
            *r == self.state_values,
    {
        &self.state_values
    }
}

/// The numbers that a fill goes through.
pub struct FillSums {
    /// What the fill is worth.
    pub amount: Decimal,
    /// What the fill costs.
    pub charge: Decimal,
    /// The position after the fill.
    pub position: Decimal,
    /// The balance after the fill.
    pub balance: Decimal,
    /// The fees after the fill.
    pub fee: Decimal,
    /// The traded quantity after the fill.
    pub volume: Decimal,
    /// The traded value after the fill.
    pub value: Decimal,
}

/// Whether none of these numbers is rounded.
pub open spec fn summed_exactly<AT: AssetType, FM: FeeModel>(
    sums: FillSums,
    values: StateValues,
    asset_type: AT,
    fee_model: FM,
    side: Side,
    fill: OrderFill,
) -> bool {
    &&& proper(fill.qty)
    &&& proper(sums.amount)
    &&& asset_type.amount_of(fill.price, fill.qty) == Some(sums.amount)
    &&& fee_model.fee_of(fill, side, sums.amount) == Some(sums.charge)
    &&& exact_sum(values.fee, sums.charge, sums.fee)
    &&& exact_sum(values.trading_volume, fill.qty, sums.volume)
    &&& exact_sum(values.trading_value, sums.amount, sums.value)
    &&& match side {
        Side::Buy => exact_sum(values.position, fill.qty, sums.position) && exact_difference(
            values.balance,
            sums.amount,
            sums.balance,
        ),
        Side::Sell => exact_sum(values.position, fill.qty.negated(), sums.position)
            && exact_difference(values.balance, sums.amount.negated(), sums.balance),
    }
}

/// A buy raises the position by the quantity of the fill and lowers the balance by what it is worth;
/// a sale does the opposite. Either adds its fee to the fees, its quantity to the traded quantity,
/// its worth to the traded value and one to the number of trades. This is stated where nothing is
/// rounded and the number of trades can be held.
pub proof fn fills_move_position_and_balance<AT: AssetType, FM: FeeModel>(
    values: StateValues,
    asset_type: AT,
    fee_model: FM,
    side: Side,
    fill: OrderFill,
    sums: FillSums,
)
    requires
        values.num_trades < i64::MAX,
        summed_exactly(sums, values, asset_type, fee_model, side, fill),
    ensures
        filled_values(values, asset_type, fee_model, side, fill) matches Some(after) && {
            &&& side == Side::Buy ==> after.position@ == values.position@ + fill.qty@
                && after.balance@ == values.balance@ - sums.amount@
            &&& side == Side::Sell ==> after.position@ == values.position@ - fill.qty@
                && after.balance@ == values.balance@ + sums.amount@
            &&& after.fee@ == values.fee@ + sums.charge@
            &&& after.num_trades == values.num_trades + 1
            &&& after.trading_volume@ == values.trading_volume@ + fill.qty@
            &&& after.trading_value@ == values.trading_value@ + sums.amount@
        },
{
    lemma_negated(fill.qty);
    lemma_negated(sums.amount);
}

/// Selling again what was just bought at one price leaves the position and the balance as they were,
/// and all that is left of the two is their fees, two trades and what was traded.
pub proof fn a_round_trip_costs_its_fees<AT: AssetType, FM: FeeModel>(
    values: StateValues,
    asset_type: AT,
    fee_model: FM,
    fill: OrderFill,
    bought: FillSums,
    sold: FillSums,
)
    requires
        values.num_trades < i64::MAX - 1,
        summed_exactly(bought, values, asset_type, fee_model, Side::Buy, fill),
        filled_values(values, asset_type, fee_model, Side::Buy, fill) matches Some(middle)
            && summed_exactly(sold, middle, asset_type, fee_model, Side::Sell, fill),
    ensures
        filled_values(values, asset_type, fee_model, Side::Buy, fill) matches Some(middle) && (
        filled_values(middle, asset_type, fee_model, Side::Sell, fill) matches Some(after) && {
            &&& after.position@ == values.position@
            &&& after.balance@ == values.balance@
            &&& after.fee@ == values.fee@ + bought.charge@ + sold.charge@
            &&& after.num_trades == values.num_trades + 2
            &&& after.trading_volume@ == values.trading_volume@ + 2 * fill.qty@
        }),
{
    fills_move_position_and_balance(values, asset_type, fee_model, Side::Buy, fill, bought);
    let middle = filled_values(values, asset_type, fee_model, Side::Buy, fill)->0;
    fills_move_position_and_balance(middle, asset_type, fee_model, Side::Sell, fill, sold);
}

} // verus!
