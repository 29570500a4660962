//! What a fill costs.
use vstd::prelude::*;

use crate::decimal::Decimal;
use crate::decimal::exact_product;
use crate::decimal::exact_sum;
use crate::decimal::pow10;
use crate::lifecycle::OrderFill;
use crate::types::Side;

verus! {

/// Common transaction fees
/// Fee calculation is determined by the fee model.
#[derive(Clone, Copy, Debug)]
pub struct CommonFees {
    /// Fee for adding liquidity (maker order).
    pub maker_fee: Decimal,
    /// Fee for removing liquidity (taker order).
    pub taker_fee: Decimal,
}

impl CommonFees {
    /// Constructs `CommonFees`.
    pub fn new(maker_fee: Decimal, taker_fee: Decimal) -> (r: CommonFees)
        ensures
            r == (CommonFees { maker_fee, taker_fee }),
    {
        CommonFees { maker_fee, taker_fee }
    }

    /// The fee of a maker or of a taker.
    pub open spec fn of(self, is_maker: bool) -> Decimal {
        if is_maker {
            self.maker_fee
        } else {
            self.taker_fee
        }
    }

    /// The fee of a maker or of a taker.
    fn get(&self, is_maker: bool) -> (r: Decimal)
        ensures
            r == self.of(is_maker),
    {
        if is_maker {
            self.maker_fee
        } else {
            self.taker_fee
        }
    }
}

/// Directional fees, such as stamp duty, are typically charged based on the transaction value in
/// addition to the common transaction fees.
#[derive(Clone, Copy, Debug)]
pub struct DirectionalFees {
    /// The common transaction fees
    pub common_fees: CommonFees,
    /// Buyer fee based on the transaction value
    pub buyer_fee: Decimal,
    /// Seller fee based on the transaction value
    pub seller_fee: Decimal,
}

impl DirectionalFees {
    /// Constructs `DirectionalFees`.
    pub fn new(common_fees: CommonFees, buyer_fee: Decimal, seller_fee: Decimal) -> (r:
        DirectionalFees)
        ensures
            r == (DirectionalFees { common_fees, buyer_fee, seller_fee }),
    {
        DirectionalFees { common_fees, buyer_fee, seller_fee }
    }

    /// The fee of a buyer or of a seller.
    pub open spec fn of(self, side: Side) -> Decimal {
        match side {
            Side::Buy => self.buyer_fee,
            Side::Sell => self.seller_fee,
        }
    }

    /// The fee of a buyer or of a seller.
    fn get(&self, side: Side) -> (r: Decimal)
        ensures
            r == self.of(side),
    {
        match side {
            Side::Buy => self.buyer_fee,
            Side::Sell => self.seller_fee,
        }
    }
}

/// Provides the fee.
///
/// There is no result where a number on the way to it cannot be held.
pub trait FeeModel: Sized {
    /// The fee for an applied fill.
    spec fn fee_of(&self, fill: OrderFill, side: Side, trading_value: Decimal) -> Option<Decimal>;

    /// Calculates the fee for an applied fill using its order side and asset-denominated trading
    /// value.
    fn amount(&self, fill: &OrderFill, side: Side, trading_value: Decimal) -> (r: Option<Decimal>)
        ensures
            r == self.fee_of(*fill, side, trading_value),
    ;
}

/// Fee based on the transaction value,
/// with the rate depending on whether the order is a maker or taker.
#[derive(Clone, Copy, Debug)]
pub struct TradingValueFeeModel<Fees> {
    /// The fees.
    pub fees: Fees,
}

impl<Fees> TradingValueFeeModel<Fees> {
    /// Constructs `TradingValueFeeModel`.
    pub fn new(fees: Fees) -> (r: TradingValueFeeModel<Fees>)
        ensures
            r.fees == fees,
    {
        TradingValueFeeModel { fees }
    }
}

impl FeeModel for TradingValueFeeModel<CommonFees> {
    /// The rate times the value.
    open spec fn fee_of(&self, fill: OrderFill, side: Side, trading_value: Decimal) -> Option<
        Decimal,
    > {
        self.fees.of(fill.is_maker).product(trading_value)
    }

    fn amount(&self, fill: &OrderFill, side: Side, trading_value: Decimal) -> (r: Option<
        Decimal,
    >) {
        self.fees.get(fill.is_maker).checked_mul(trading_value)
    }
}

impl FeeModel for TradingValueFeeModel<DirectionalFees> {
    /// The sum of both rates times the value.
    open spec fn fee_of(&self, fill: OrderFill, side: Side, trading_value: Decimal) -> Option<
        Decimal,
    > {
        match self.fees.common_fees.of(fill.is_maker).sum(self.fees.of(side)) {
            None => None,
            Some(rate) => rate.product(trading_value),
        }
    }

    fn amount(&self, fill: &OrderFill, side: Side, trading_value: Decimal) -> (r: Option<
        Decimal,
    >) {
        let common: Decimal = self.fees.common_fees.get(fill.is_maker);
        common.checked_add(self.fees.get(side))?.checked_mul(trading_value)
    }
}

/// Fee based on the transaction quantity,
/// with the rate depending on whether the order is a maker or taker.
#[derive(Clone, Copy, Debug)]
pub struct TradingQtyFeeModel<Fees> {
    /// The fees.
    pub fees: Fees,
}

impl<Fees> TradingQtyFeeModel<Fees> {
    /// Constructs `TradingQtyFeeModel`.
    pub fn new(fees: Fees) -> (r: TradingQtyFeeModel<Fees>)
        ensures
            r.fees == fees,
    {
        TradingQtyFeeModel { fees }
    }
}

impl FeeModel for TradingQtyFeeModel<CommonFees> {
    /// The rate times the quantity.
    open spec fn fee_of(&self, fill: OrderFill, side: Side, trading_value: Decimal) -> Option<
        Decimal,
    > {
        self.fees.of(fill.is_maker).product(fill.qty)
    }

    fn amount(&self, fill: &OrderFill, side: Side, trading_value: Decimal) -> (r: Option<
        Decimal,
    >) {
        self.fees.get(fill.is_maker).checked_mul(fill.qty)
    }
}

impl FeeModel for TradingQtyFeeModel<DirectionalFees> {
    /// The common rate times the quantity, plus the directional rate times the value.
    open spec fn fee_of(&self, fill: OrderFill, side: Side, trading_value: Decimal) -> Option<
        Decimal,
    > {
        match self.fees.common_fees.of(fill.is_maker).product(fill.qty) {
            None => None,
            Some(common) => match self.fees.of(side).product(trading_value) {
                None => None,
                Some(directional) => common.sum(directional),
            },
        }
    }

    fn amount(&self, fill: &OrderFill, side: Side, trading_value: Decimal) -> (r: Option<
        Decimal,
    >) {
        let common: Decimal = self.fees.common_fees.get(fill.is_maker).checked_mul(fill.qty)?;
        let directional: Decimal = self.fees.get(side).checked_mul(trading_value)?;
        common.checked_add(directional)
    }
}

/// Flat fee per trade
#[derive(Clone, Copy, Debug)]
pub struct FlatPerTradeFeeModel<Fees> {
    /// The fees.
    pub fees: Fees,
}

impl<Fees> FlatPerTradeFeeModel<Fees> {
    /// Constructs `FlatPerTradeFeeModel`.
    pub fn new(fees: Fees) -> (r: FlatPerTradeFeeModel<Fees>)
        ensures
            r.fees == fees,
    {
        FlatPerTradeFeeModel { fees }
    }
}

impl FeeModel for FlatPerTradeFeeModel<CommonFees> {
    /// The fee itself.
    open spec fn fee_of(&self, fill: OrderFill, side: Side, trading_value: Decimal) -> Option<
        Decimal,
    > {
        Some(self.fees.of(fill.is_maker))
    }

    fn amount(&self, fill: &OrderFill, side: Side, trading_value: Decimal) -> (r: Option<
        Decimal,
    >) {
        Some(self.fees.get(fill.is_maker))
    }
}

/// Where fees go by value, a maker pays the maker rate times the value that it traded, and a taker
/// the taker rate times it; a directional fee adds the rate of the side to either. This is stated
/// where nothing is rounded.
pub proof fn value_fees_are_rates_of_the_value(
    common: TradingValueFeeModel<CommonFees>,
    directional: TradingValueFeeModel<DirectionalFees>,
    fill: OrderFill,
    side: Side,
    value: Decimal,
    rate: Decimal,
    charge: Decimal,
    both: Decimal,
    both_charge: Decimal,
)
    requires
        fill.is_maker ==> rate == common.fees.maker_fee && rate
            == directional.fees.common_fees.maker_fee,
        !fill.is_maker ==> rate == common.fees.taker_fee && rate
            == directional.fees.common_fees.taker_fee,
        exact_product(rate, value, charge),
        side == Side::Buy ==> exact_sum(rate, directional.fees.buyer_fee, both),
        side == Side::Sell ==> exact_sum(rate, directional.fees.seller_fee, both),
        exact_product(both, value, both_charge),
    ensures
        common.fee_of(fill, side, value) == Some(charge),
        charge@ * pow10(28) == rate@ * value@,
        directional.fee_of(fill, side, value) == Some(both_charge),
        side == Side::Buy ==> both_charge@ * pow10(28) == (rate@ + directional.fees.buyer_fee@)
            * value@,
        side == Side::Sell ==> both_charge@ * pow10(28) == (rate@ + directional.fees.seller_fee@)
            * value@,
{
}

/// Where fees go by quantity, a maker pays the maker rate times the quantity of the fill, and a
/// taker the taker rate times it; a directional fee adds the rate of the side times the value. This
/// is stated where nothing is rounded.
pub proof fn quantity_fees_are_rates_of_the_quantity(
    common: TradingQtyFeeModel<CommonFees>,
    directional: TradingQtyFeeModel<DirectionalFees>,
    fill: OrderFill,
    side: Side,
    value: Decimal,
    rate: Decimal,
    charge: Decimal,
    duty: Decimal,
    total: Decimal,
)
    requires
        fill.is_maker ==> rate == common.fees.maker_fee && rate
            == directional.fees.common_fees.maker_fee,
        !fill.is_maker ==> rate == common.fees.taker_fee && rate
            == directional.fees.common_fees.taker_fee,
        exact_product(rate, fill.qty, charge),
        side == Side::Buy ==> exact_product(directional.fees.buyer_fee, value, duty),
        side == Side::Sell ==> exact_product(directional.fees.seller_fee, value, duty),
        exact_sum(charge, duty, total),
    ensures
        common.fee_of(fill, side, value) == Some(charge),
        charge@ * pow10(28) == rate@ * fill.qty@,
        directional.fee_of(fill, side, value) == Some(total),
        total@ == charge@ + duty@,
{
}

/// A flat fee is the same for every fill of a maker, and for every fill of a taker.
pub proof fn flat_fees_do_not_depend_on_size(
    model: FlatPerTradeFeeModel<CommonFees>,
    fill: OrderFill,
    side: Side,
    value: Decimal,
)
    ensures
        fill.is_maker ==> model.fee_of(fill, side, value) == Some(model.fees.maker_fee),
        !fill.is_maker ==> model.fee_of(fill, side, value) == Some(model.fees.taker_fee),
{
}

} // verus!
