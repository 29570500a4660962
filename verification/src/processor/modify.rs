//! Plans what becomes of an order that is modified.
use vstd::prelude::*;

use crate::decimal::Decimal;
use crate::depth::Book;
use crate::depth::MarketDepth;
use crate::error::BacktestError;
use crate::lifecycle::Order;
use crate::lifecycle::OrderModel;
use crate::lifecycle::OrderStatus;
use crate::processor::price_match::crosses_book;
use crate::processor::price_match::is_crossing;
use crate::processor::price_match::price_satisfies_rule;
use crate::processor::price_match::resolve_price_match;
use crate::processor::price_match::resolved_price;
use crate::processor::price_match::rule_satisfied;
use crate::rules::TickSizeChange;
use crate::rules::TickSizeError;
use crate::rules::tick_size_at;
use crate::rules::TickSizeSchedule;
use crate::types::OrdType;
use crate::types::PriceMatch;
use crate::types::Side;
use crate::types::TimeInForce;

verus! {

/// What is to be changed of an order.
#[derive(Clone, Copy, Debug)]
pub struct OrderAmendment {
    /// The new price.
    pub price: Decimal,
    /// How the new price is found.
    pub price_match: PriceMatch,
    /// The new total quantity.
    pub qty: Decimal,
}

/// What becomes of an order that is modified.
#[derive(Debug)]
pub enum ModifyPlan {
    /// It stays as it is.
    Reject,
    /// It ends.
    Terminate(OrderStatus),
    /// It is placed again, with new terms.
    Reenter(Order),
}

/// What becomes of an order that is modified.
pub enum PlanModel {
    /// It stays as it is.
    Reject,
    /// It ends.
    Terminate(OrderStatus),
    /// It is placed again, with new terms.
    Reenter(OrderModel),
}

impl View for ModifyPlan {
    type V = PlanModel;

    open spec fn view(&self) -> PlanModel {
        match *self {
            ModifyPlan::Reject => PlanModel::Reject,
            ModifyPlan::Terminate(status) => PlanModel::Terminate(status),
            ModifyPlan::Reenter(order) => PlanModel::Reenter(order@),
        }
    }
}

/// The order with its new terms.
pub open spec fn amended(existing: OrderModel, amendment: OrderAmendment) -> OrderModel {
    OrderModel {
        price: amendment.price,
        price_match: amendment.price_match,
        qty: amendment.qty,
        ..existing
    }
}

/// Whether the price is to be found anew.
pub open spec fn price_changes(existing: OrderModel, amendment: OrderAmendment) -> bool {
    existing.price@ != amendment.price@ || existing.price_match != amendment.price_match
}

/// What becomes of an order whose new price is known.
pub open spec fn planned_at(
    existing: OrderModel,
    amendment: OrderAmendment,
    price: Decimal,
    book: Book,
) -> PlanModel {
    if existing.filled@ > 0 && amendment.qty@ <= existing.filled@ {
        PlanModel::Terminate(OrderStatus::Canceled)
    } else if existing.order_type == OrdType::Limit && existing.time_in_force == TimeInForce::GTX
        && crosses_book(existing.side, price, book) {
        PlanModel::Terminate(OrderStatus::Expired)
    } else {
        PlanModel::Reenter(OrderModel { price, ..amended(existing, amendment) })
    }
}

/// What becomes of an order that is modified. A price that changes must satisfy the rule that is in
/// effect.
pub open spec fn planned(
    existing: OrderModel,
    amendment: OrderAmendment,
    timestamp: i64,
    book: Book,
    changes: Seq<TickSizeChange>,
) -> Result<PlanModel, BacktestError> {
    let candidate = amended(existing, amendment);
    let allowed = if price_changes(existing, amendment) {
        rule_satisfied(candidate.instruction(), timestamp, changes)
    } else {
        Ok(true)
    };
    if amendment.qty@ <= 0 {
        Ok(PlanModel::Reject)
    } else {
        match allowed {
            Err(error) => Err(BacktestError::TickSize(error)),
            Ok(false) => Ok(PlanModel::Reject),
            Ok(true) => match resolved_price(candidate.instruction(), book) {
                None => Ok(PlanModel::Reject),
                Some(price) => Ok(planned_at(existing, amendment, price, book)),
            },
        }
    }
}

/// Plans what becomes of an order that is modified.
pub fn plan_modify<MD: MarketDepth>(
    existing: &Order,
    amendment: OrderAmendment,
    timestamp: i64,
    depth: &MD,
    tick_sizes: &TickSizeSchedule,
) -> (r: Result<ModifyPlan, BacktestError>)
    requires
        depth.wf(),
        tick_sizes.wf(),
    ensures
        match r {
            Ok(plan) => planned(existing@, amendment, timestamp, depth.book(), tick_sizes@) == Ok::<
                PlanModel,
                BacktestError,
            >(plan@),
            Err(error) => planned(existing@, amendment, timestamp, depth.book(), tick_sizes@)
                == Err::<PlanModel, BacktestError>(error),
        },
{
    if !amendment.qty.is_positive() {
        return Ok(ModifyPlan::Reject);
    }
    let mut candidate: Order = existing.copy();
    let price_instruction_changed: bool = candidate.price != amendment.price
        || candidate.price_match != amendment.price_match;
    candidate.price = amendment.price;
    candidate.price_match = amendment.price_match;
    candidate.qty = amendment.qty;
    assert(candidate@ =~= amended(existing@, amendment));
    if price_instruction_changed {
        match price_satisfies_rule(&candidate.price_instruction(), timestamp, tick_sizes) {
            Err(error) => {
                return Err(BacktestError::TickSize(error));
            },
            Ok(false) => {
                return Ok(ModifyPlan::Reject);
            },
            Ok(true) => {},
        }
    }
    let price: Decimal = match resolve_price_match(&candidate.price_instruction(), depth) {
        Some(price) => price,
        None => {
            return Ok(ModifyPlan::Reject);
        },
    };
    candidate.price = price;
    if existing.filled.is_positive() && candidate.qty.le(existing.filled) {
        return Ok(ModifyPlan::Terminate(OrderStatus::Canceled));
    }
    if candidate.order_type == OrdType::Limit && candidate.time_in_force == TimeInForce::GTX
        && is_crossing(candidate.side, candidate.price, depth) {
        return Ok(ModifyPlan::Terminate(OrderStatus::Expired));
    }
    Ok(ModifyPlan::Reenter(candidate))
}

/// A modification to no quantity is rejected. Where the rule allows the new price, an order of which
/// the new quantity leaves nothing is canceled, and a post-only limit order that would reach the
/// other side expires. Every other order is to be placed again with the new terms and all that was
/// filled of it.
pub proof fn modifications_keep_the_fills(
    existing: OrderModel,
    amendment: OrderAmendment,
    timestamp: i64,
    book: Book,
    changes: Seq<TickSizeChange>,
)
    requires
        amendment.price_match == PriceMatch::Explicit,
        rule_satisfied(
            OrderModel {
                price: amendment.price,
                price_match: PriceMatch::Explicit,
                ..existing
            }.instruction(),
            timestamp,
            changes,
        ) == Ok::<bool, TickSizeError>(true),
    ensures
        ({
            let plan = planned(existing, amendment, timestamp, book, changes);
            let used_up = existing.filled@ > 0 && amendment.qty@ <= existing.filled@;
            let reaches = match existing.side {
                Side::Buy => book.best_ask matches Some(ask) && ask@ <= amendment.price@,
                Side::Sell => book.best_bid matches Some(bid) && amendment.price@ <= bid@,
            };
            let post_only = existing.order_type == OrdType::Limit && existing.time_in_force
                == TimeInForce::GTX;
            &&& plan is Ok
            &&& amendment.qty@ <= 0 ==> plan->Ok_0 == PlanModel::Reject
            &&& amendment.qty@ > 0 && used_up ==> plan->Ok_0 == PlanModel::Terminate(
                OrderStatus::Canceled,
            )
            &&& amendment.qty@ > 0 && !used_up && reaches && post_only ==> plan->Ok_0
                == PlanModel::Terminate(OrderStatus::Expired)
            &&& amendment.qty@ > 0 && !used_up && !(reaches && post_only) ==> plan->Ok_0
                == PlanModel::Reenter(
                OrderModel {
                    price: amendment.price,
                    price_match: PriceMatch::Explicit,
                    qty: amendment.qty,
                    ..existing
                },
            )
        }),
{
}

/// A new price that the rule does not allow is rejected, whatever the quantity.
pub proof fn modifications_off_the_grid_are_rejected(
    existing: OrderModel,
    amendment: OrderAmendment,
    timestamp: i64,
    book: Book,
    changes: Seq<TickSizeChange>,
    tick_size: Decimal,
)
    requires
        existing.order_type == OrdType::Limit,
        amendment.price_match == PriceMatch::Explicit,
        existing.price@ != amendment.price@,
        tick_size_at(changes, timestamp) == Ok::<Decimal, TickSizeError>(tick_size),
        tick_size@ != 0,
        amendment.price@ % tick_size@ != 0,
    ensures
        planned(existing, amendment, timestamp, book, changes) == Ok::<PlanModel, BacktestError>(
            PlanModel::Reject,
        ),
{
}

} // verus!
