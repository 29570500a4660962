//! What a quantity of an asset is worth.
use vstd::prelude::*;

use crate::decimal::Decimal;
use crate::decimal::exact_difference;
use crate::decimal::exact_product;
use crate::decimal::exact_quotient;
use crate::decimal::exact_sum;
use crate::decimal::lemma_negated;
use crate::decimal::pow10;
use crate::decimal::proper;

verus! {

/// Calculates the value amount and the equity according to the asset type.
///
/// There is no result where a number on the way to it cannot be held.
pub trait AssetType: Sized {
    /// The value amount.
    spec fn amount_of(&self, price: Decimal, qty: Decimal) -> Option<Decimal>;

    /// The equity.
    spec fn equity_of(
        &self,
        price: Decimal,
        balance: Decimal,
        position: Decimal,
        fee: Decimal,
    ) -> Option<Decimal>;

    /// Calculates the value amount.
    fn amount(&self, price: Decimal, qty: Decimal) -> (r: Option<Decimal>)
        ensures
            r == self.amount_of(price, qty),
    ;

    /// Calculates the equity.
    fn equity(&self, price: Decimal, balance: Decimal, position: Decimal, fee: Decimal) -> (r:
        Option<Decimal>)
        ensures
            r == self.equity_of(price, balance, position, fee),
    ;
}

/// The common type of asset where the contract's notional value is linear to the quote currency.
#[derive(Clone, Copy, Debug)]
pub struct LinearAsset {
    /// The size of a contract.
    pub contract_size: Decimal,
}

impl LinearAsset {
    /// Constructs an instance of `LinearAsset`.
    pub fn new(contract_size: Decimal) -> (r: LinearAsset)
        ensures
            r.contract_size == contract_size,
    {
        LinearAsset { contract_size }
    }
}

impl AssetType for LinearAsset {
    /// The size of a contract times the price times the quantity.
    open spec fn amount_of(&self, price: Decimal, qty: Decimal) -> Option<Decimal> {
        match self.contract_size.product(price) {
            None => None,
            Some(value) => value.product(qty),
        }
    }

    /// The balance, plus the value of the position, less the fee.
    open spec fn equity_of(
        &self,
        price: Decimal,
        balance: Decimal,
        position: Decimal,
        fee: Decimal,
    ) -> Option<Decimal> {
        match self.contract_size.product(position) {
            None => None,
            Some(size) => match size.product(price) {
                None => None,
                Some(value) => match balance.sum(value) {
                    None => None,
                    Some(gross) => gross.difference(fee),
                },
            },
        }
    }

    fn amount(&self, price: Decimal, qty: Decimal) -> (r: Option<Decimal>) {
        self.contract_size.checked_mul(price)?.checked_mul(qty)
    }

    fn equity(&self, price: Decimal, balance: Decimal, position: Decimal, fee: Decimal) -> (r:
        Option<Decimal>) {
        let value: Decimal = self.contract_size.checked_mul(position)?.checked_mul(price)?;
        balance.checked_add(value)?.checked_sub(fee)
    }
}

/// The contract's notional value is denominated in the quote currency.
#[derive(Clone, Copy, Debug)]
pub struct InverseAsset {
    /// The size of a contract.
    pub contract_size: Decimal,
}

impl InverseAsset {
    /// Constructs an instance of `InverseAsset`.
    pub fn new(contract_size: Decimal) -> (r: InverseAsset)
        ensures
            r.contract_size == contract_size,
    {
        InverseAsset { contract_size }
    }
}

impl AssetType for InverseAsset {
    /// The size of a contract times the quantity, divided by the price.
    open spec fn amount_of(&self, price: Decimal, qty: Decimal) -> Option<Decimal> {
        match self.contract_size.product(qty) {
            None => None,
            Some(value) => value.quotient(price),
        }
    }

    /// The negated balance, less the value of the position, less the fee.
    open spec fn equity_of(
        &self,
        price: Decimal,
        balance: Decimal,
        position: Decimal,
        fee: Decimal,
    ) -> Option<Decimal> {
        match self.contract_size.product(position) {
            None => None,
            Some(size) => match size.quotient(price) {
                None => None,
                Some(value) => match balance.negated().difference(value) {
                    None => None,
                    Some(gross) => gross.difference(fee),
                },
            },
        }
    }

    fn amount(&self, price: Decimal, qty: Decimal) -> (r: Option<Decimal>) {
        self.contract_size.checked_mul(qty)?.checked_div(price)
    }

    fn equity(&self, price: Decimal, balance: Decimal, position: Decimal, fee: Decimal) -> (r:
        Option<Decimal>) {
        let value: Decimal = self.contract_size.checked_mul(position)?.checked_div(price)?;
        balance.neg().checked_sub(value)?.checked_sub(fee)
    }
}

/// A quantity of a linear asset is worth the size of a contract times the price times the quantity,
/// where nothing is rounded.
pub proof fn linear_amounts_are_products(
    asset: LinearAsset,
    price: Decimal,
    qty: Decimal,
    value: Decimal,
    amount: Decimal,
)
    requires
        exact_product(asset.contract_size, price, value),
        exact_product(value, qty, amount),
    ensures
        asset.amount_of(price, qty) == Some(amount),
        amount@ * pow10(28) * pow10(28) == asset.contract_size@ * price@ * qty@,
{
    let unit = pow10(28);
    assert(amount@ * unit * unit == (value@ * unit) * qty@) by (nonlinear_arith)
        requires
            amount@ * unit == value@ * qty@,
    ;
}

/// The equity of a linear asset is the balance plus what the position is worth, less the fee. So it
/// moves with the balance and against the fee, one to one, and a long position gains from a higher
/// price, where nothing is rounded.
pub proof fn linear_equity_is_balance_plus_position(
    asset: LinearAsset,
    price: Decimal,
    balance: Decimal,
    position: Decimal,
    fee: Decimal,
    size: Decimal,
    value: Decimal,
    gross: Decimal,
    net: Decimal,
)
    requires
        exact_product(asset.contract_size, position, size),
        exact_product(size, price, value),
        exact_sum(balance, value, gross),
        exact_difference(gross, fee, net),
    ensures
        asset.equity_of(price, balance, position, fee) == Some(net),
        (net@ - balance@ + fee@) * pow10(28) * pow10(28) == asset.contract_size@ * position@
            * price@,
{
    let unit = pow10(28);
    assert(net@ - balance@ + fee@ == value@);
    assert(value@ * unit * unit == (size@ * unit) * price@) by (nonlinear_arith)
        requires
            value@ * unit == size@ * price@,
    ;
}

/// A quantity of an inverse asset is worth the size of a contract times the quantity, divided by the
/// price, where nothing is rounded. There is no amount at a price of zero.
pub proof fn inverse_amounts_are_quotients(
    asset: InverseAsset,
    price: Decimal,
    qty: Decimal,
    value: Decimal,
    amount: Decimal,
)
    requires
        exact_product(asset.contract_size, qty, value),
        exact_quotient(value, price, amount),
    ensures
        asset.amount_of(price, qty) == Some(amount),
        amount@ * price@ == asset.contract_size@ * qty@,
{
    assert(value@ * pow10(28) == asset.contract_size@ * qty@);
}

/// The equity of an inverse asset is the negated balance, less what the position is worth, less the
/// fee, where nothing is rounded.
pub proof fn inverse_equity_is_negated_balance_less_position(
    asset: InverseAsset,
    price: Decimal,
    balance: Decimal,
    position: Decimal,
    fee: Decimal,
    size: Decimal,
    value: Decimal,
    gross: Decimal,
    net: Decimal,
)
    requires
        proper(balance),
        exact_product(asset.contract_size, position, size),
        exact_quotient(size, price, value),
        exact_difference(balance.negated(), value, gross),
        exact_difference(gross, fee, net),
    ensures
        asset.equity_of(price, balance, position, fee) == Some(net),
        (net@ + balance@ + fee@) * price@ == -(asset.contract_size@ * position@),
{
    lemma_negated(balance);
    assert(net@ + balance@ + fee@ == -value@);
    assert((-value@) * price@ == -(value@ * price@)) by (nonlinear_arith);
}

} // verus!
