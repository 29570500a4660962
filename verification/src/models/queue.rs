//! Where a resting order stands in the queue at its price.
use core::marker::PhantomData;

use vstd::prelude::*;

use crate::decimal::exact_difference;
use crate::decimal::exact_product;
use crate::decimal::exact_sum;
use crate::decimal::lemma_negated;
use crate::decimal::lemma_pow10_positive;
use crate::decimal::lemma_small_wholes;
use crate::decimal::pow10;
use crate::decimal::Decimal;
use crate::depth::quantity;
use crate::depth::Book;
use crate::depth::MarketDepth;
use crate::types::OrderId;
use crate::types::Side;

verus! {

/// What a queue model knows of an order.
#[derive(Clone, Copy, Debug)]
pub struct OrderTerms {
    /// The order.
    pub order_id: OrderId,
    /// The side.
    pub side: Side,
    /// The price.
    pub price: Decimal,
}

/// Estimates the queue position of each resting order.
///
/// The exchange owns one [`State`](QueueModel::State) per resting order and passes it back to the
/// same model for every transition. Implementations must return a nonnegative executable quantity
/// from [`trade`](QueueModel::trade). There is no result where a number on the way to it cannot be
/// held.
pub trait QueueModel<MD: MarketDepth>: Sized {
    /// Per-order state maintained while an order rests in the book.
    type State: Copy;

    /// The state of an order that was just accepted.
    spec fn starting(&self, order: OrderTerms, book: Book) -> Self::State;

    /// The state after a trade at the order's price, and the quantity that can be executed.
    spec fn after_trade(
        &self,
        order: OrderTerms,
        state: Self::State,
        qty: Decimal,
        book: Book,
    ) -> Option<(Self::State, Decimal)>;

    /// The state after the depth at the order's price changed.
    spec fn after_depth(
        &self,
        order: OrderTerms,
        state: Self::State,
        prev_qty: Decimal,
        new_qty: Decimal,
        book: Book,
    ) -> Option<Self::State>;

    /// Initialize the queue position and other necessary values for estimation.
    /// This function is called when the exchange model accepts the new order.
    fn new_order(&self, order: &OrderTerms, depth: &MD) -> (r: Self::State)
        requires
            depth.wf(),
        ensures
            r == self.starting(*order, depth.book()),
    ;

    /// Adjusts the estimation values when market trades occur at the same price and returns the
    /// quantity available to execute after the queue ahead has been consumed.
    fn trade(&self, order: &OrderTerms, state: Self::State, qty: Decimal, depth: &MD) -> (r: Option<
        (Self::State, Decimal),
    >)
        requires
            depth.wf(),
        ensures
            r == self.after_trade(*order, state, qty, depth.book()),
            r matches Some(after) ==> after.1@ >= 0,
    ;

    /// Adjusts the estimation values after market depth changes at the same price.
    fn depth(
        &self,
        order: &OrderTerms,
        state: Self::State,
        prev_qty: Decimal,
        new_qty: Decimal,
        depth: &MD,
    ) -> (r: Option<Self::State>)
        requires
            depth.wf(),
        ensures
            r == self.after_depth(*order, state, prev_qty, new_qty, depth.book()),
    ;
}

/// The quantity at an order's price on its own side of the book.
pub open spec fn queue_at(order: OrderTerms, book: Book) -> Decimal {
    match order.side {
        Side::Buy => quantity(book.bids, order.price@),
        Side::Sell => quantity(book.asks, order.price@),
    }
}

/// The quantity at an order's price on its own side of the book.
fn queue_ahead<MD: MarketDepth>(order: &OrderTerms, depth: &MD) -> (r: Decimal)
    requires
        depth.wf(),
    ensures
        r == queue_at(*order, depth.book()),
{
    match order.side {
        Side::Buy => depth.bid_qty_at_price(order.price),
        Side::Sell => depth.ask_qty_at_price(order.price),
    }
}

/// The queue ahead of an order after a trade, and the quantity that the trade leaves for the order.
pub open spec fn consumed(front: Decimal, qty: Decimal) -> Option<(Decimal, Decimal)> {
    match front.difference(qty) {
        None => None,
        Some(left) => if left@ < 0 {
            Some((Decimal::whole(0), left.negated()))
        } else {
            Some((left, Decimal::whole(0)))
        },
    }
}

/// The queue ahead of an order after a trade, and the quantity that the trade leaves for the order.
fn consume(front: Decimal, qty: Decimal) -> (r: Option<(Decimal, Decimal)>)
    ensures
        r == consumed(front, qty),
        r matches Some(after) ==> after.1@ >= 0,
{
    let left: Decimal = front.checked_sub(qty)?;
    if left.is_negative() {
        Some((Decimal::zero(), left.neg()))
    } else {
        Some((left, Decimal::zero()))
    }
}

/// Provides a conservative queue position model, where your order's queue position advances only
/// when trades occur at the same price level.
#[derive(Debug)]
pub struct RiskAdverseQueueModel<MD>(PhantomData<MD>);

impl<MD> RiskAdverseQueueModel<MD> {
    /// Constructs the model.
    pub fn new() -> (r: RiskAdverseQueueModel<MD>)
        ensures
            r == RiskAdverseQueueModel::<MD>::the(),
    {
        RiskAdverseQueueModel(PhantomData)
    }

    /// Copies the model.
    pub fn copy(&self) -> (r: RiskAdverseQueueModel<MD>)
        ensures
            r == *self,
    {
        RiskAdverseQueueModel(self.0)
    }

    /// The model, of which there is one.
    pub closed spec fn the() -> RiskAdverseQueueModel<MD> {
        RiskAdverseQueueModel(PhantomData)
    }
}

impl<MD: MarketDepth> QueueModel<MD> for RiskAdverseQueueModel<MD> {
    /// The quantity ahead of the order.
    type State = Decimal;

    open spec fn starting(&self, order: OrderTerms, book: Book) -> Decimal {
        queue_at(order, book)
    }

    open spec fn after_trade(
        &self,
        order: OrderTerms,
        state: Decimal,
        qty: Decimal,
        book: Book,
    ) -> Option<(Decimal, Decimal)> {
        consumed(state, qty)
    }

    /// Only trades advance the order in the queue, so a change of the depth leaves it where it is.
    open spec fn after_depth(
        &self,
        order: OrderTerms,
        state: Decimal,
        prev_qty: Decimal,
        new_qty: Decimal,
        book: Book,
    ) -> Option<Decimal> {
        Some(state)
    }

    fn new_order(&self, order: &OrderTerms, depth: &MD) -> (r: Decimal) {
        queue_ahead(order, depth)
    }

    fn trade(&self, order: &OrderTerms, state: Decimal, qty: Decimal, depth: &MD) -> (r: Option<
        (Decimal, Decimal),
    >) {
        consume(state, qty)
    }

    fn depth(
        &self,
        order: &OrderTerms,
        state: Decimal,
        prev_qty: Decimal,
        new_qty: Decimal,
        depth: &MD,
    ) -> (r: Option<Decimal>) {
        Some(state)
    }
}

/// Stores the values needed for queue position estimation and adjustment for [`ProbQueueModel`].
#[derive(Clone, Copy, Debug)]
pub struct QueuePos {
    /// The quantity ahead of the order.
    pub front_q_qty: Decimal,
    /// The quantity traded since the depth last changed.
    pub cum_trade_qty: Decimal,
}

/// Provides the probability of a decrease behind the order's queue position.
pub trait Probability: Sized {
    /// The probability. A number that is not between zero and one counts as the nearer of the two.
    /// An implementation that is not verified leaves this
    /// open.
    open spec fn probability(&self, front: Decimal, back: Decimal) -> Decimal {
        arbitrary()
    }

    /// Returns the probability based on the quantity ahead and behind the order.
    fn prob(&self, front: Decimal, back: Decimal) -> (r: Decimal)
        ensures
            r == self.probability(front, back),
    ;
}

/// Provides a probability-based queue position model as described in
/// * `<https://quant.stackexchange.com/questions/3782/how-do-we-estimate-position-of-our-order-in-order-book>`
/// * `<https://rigtorp.se/2013/06/08/estimating-order-queue-position.html>`
///
/// Your order's queue position advances when a trade occurs at the same price level or the quantity
/// at the level decreases. The advancement in queue position depends on the probability based on
/// the relative queue position. To avoid double counting the quantity decrease caused by trades,
/// all trade quantities occurring at the level before the book quantity changes will be subtracted
/// from the book quantity changes.
#[derive(Debug)]
pub struct ProbQueueModel<P, MD> {
    /// The probability model.
    pub prob: P,
    /// The kind of book.
    pub marker: PhantomData<MD>,
}

impl<P: Probability, MD> ProbQueueModel<P, MD> {
    /// Constructs an instance of `ProbQueueModel` with a [`Probability`] model.
    pub fn new(prob: P) -> (r: ProbQueueModel<P, MD>)
        ensures
            r.prob == prob,
    {
        ProbQueueModel { prob, marker: PhantomData }
    }
}

/// A probability brought between zero and one.
pub open spec fn clamped(probability: Decimal) -> Decimal {
    if probability@ < 0 {
        Decimal::whole(0)
    } else {
        probability.smaller(Decimal::whole(1))
    }
}

/// Brings a probability between zero and one.
pub fn clamp_probability(probability: Decimal) -> (r: Decimal)
    ensures
        r == clamped(probability),
        0 <= r@ <= Decimal::whole(1)@,
{
    let zero: Decimal = Decimal::zero();
    let one: Decimal = Decimal::one();
    proof {
        lemma_pow10_positive(28);
    }
    if probability.is_negative() {
        zero
    } else {
        probability.min(one)
    }
}

/// By how much the depth shrank, apart from trades.
pub open spec fn shrinkage(pos: QueuePos, prev_qty: Decimal, new_qty: Decimal) -> Option<Decimal> {
    match prev_qty.difference(new_qty) {
        None => None,
        Some(change) => change.difference(pos.cum_trade_qty),
    }
}

/// The queue ahead of an order after the depth shrank, where `probability` is that of a decrease
/// behind the order.
pub open spec fn shrunk_front(
    front: Decimal,
    back: Decimal,
    change: Decimal,
    probability: Decimal,
) -> Option<Decimal> {
    match (
        Decimal::whole(1).difference(probability),
        probability.product(change),
    ) {
        (Some(ahead), Some(behind)) => match (ahead.product(change), back.difference(behind)) {
            (Some(gone), Some(rest)) => match front.difference(gone) {
                None => None,
                Some(left) => left.sum(rest.smaller(Decimal::whole(0))),
            },
            _ => None,
        },
        _ => None,
    }
}

/// The position after the depth changed, where `probability` is that of a decrease behind the
/// order.
pub open spec fn moved_position(
    pos: QueuePos,
    new_qty: Decimal,
    back: Decimal,
    change: Decimal,
    probability: Decimal,
) -> Option<QueuePos> {
    match shrunk_front(pos.front_q_qty, back, change, probability) {
        None => None,
        Some(front) => Some(
            QueuePos { front_q_qty: front.smaller(new_qty), cum_trade_qty: Decimal::whole(0) },
        ),
    }
}

/// Moves the queue ahead of an order after the depth shrank.
pub fn shrink_front(front: Decimal, back: Decimal, change: Decimal, probability: Decimal) -> (r:
    Option<Decimal>)
    ensures
        r == shrunk_front(front, back, change, probability),
{
    let ahead: Decimal = Decimal::one().checked_sub(probability)?;
    let behind: Decimal = probability.checked_mul(change)?;
    let gone: Decimal = ahead.checked_mul(change)?;
    let rest: Decimal = back.checked_sub(behind)?;
    let left: Decimal = front.checked_sub(gone)?;
    left.checked_add(rest.min(Decimal::zero()))
}

impl<P: Probability, MD: MarketDepth> QueueModel<MD> for ProbQueueModel<P, MD> {
    type State = QueuePos;

    open spec fn starting(&self, order: OrderTerms, book: Book) -> QueuePos {
        QueuePos { front_q_qty: queue_at(order, book), cum_trade_qty: Decimal::whole(0) }
    }

    open spec fn after_trade(
        &self,
        order: OrderTerms,
        state: QueuePos,
        qty: Decimal,
        book: Book,
    ) -> Option<(QueuePos, Decimal)> {
        match (consumed(state.front_q_qty, qty), state.cum_trade_qty.sum(qty)) {
            (Some(after), Some(cum_trade_qty)) => Some(
                (QueuePos { front_q_qty: after.0, cum_trade_qty }, after.1),
            ),
            _ => None,
        }
    }

    /// An increase leaves the queue ahead as it is. A decrease is shared between the queue ahead
    /// and the queue behind by the probability. The queue ahead is at most what is left at the
    /// price.
    open spec fn after_depth(
        &self,
        order: OrderTerms,
        state: QueuePos,
        prev_qty: Decimal,
        new_qty: Decimal,
        book: Book,
    ) -> Option<QueuePos> {
        match shrinkage(state, prev_qty, new_qty) {
            None => None,
            Some(change) => if change@ < 0 {
                Some(
                    QueuePos {
                        front_q_qty: state.front_q_qty.smaller(new_qty),
                        cum_trade_qty: Decimal::whole(0),
                    },
                )
            } else {
                match prev_qty.difference(state.front_q_qty) {
                    None => None,
                    Some(back) => moved_position(
                        state,
                        new_qty,
                        back,
                        change,
                        clamped(self.prob.probability(state.front_q_qty, back)),
                    ),
                }
            },
        }
    }

    fn new_order(&self, order: &OrderTerms, depth: &MD) -> (r: QueuePos) {
        QueuePos { front_q_qty: queue_ahead(order, depth), cum_trade_qty: Decimal::zero() }
    }

    fn trade(&self, order: &OrderTerms, state: QueuePos, qty: Decimal, depth: &MD) -> (r: Option<
        (QueuePos, Decimal),
    >) {
        let (front_q_qty, exec): (Decimal, Decimal) = consume(state.front_q_qty, qty)?;
        let cum_trade_qty: Decimal = state.cum_trade_qty.checked_add(qty)?;
        Some((QueuePos { front_q_qty, cum_trade_qty }, exec))
    }

    fn depth(
        &self,
        order: &OrderTerms,
        state: QueuePos,
        prev_qty: Decimal,
        new_qty: Decimal,
        depth: &MD,
    ) -> (r: Option<QueuePos>) {
        // In order to avoid duplicate order queue position adjustment, subtract queue position
        // change by trades.
        let change: Decimal = prev_qty.checked_sub(new_qty)?.checked_sub(state.cum_trade_qty)?;
        // For an increase of the quantity, front queue doesn't change by the quantity change.
        if change.is_negative() {
            return Some(
                QueuePos {
                    front_q_qty: state.front_q_qty.min(new_qty),
                    cum_trade_qty: Decimal::zero(),
                },
            );
        }
        let front: Decimal = state.front_q_qty;
        let back: Decimal = prev_qty.checked_sub(front)?;
        let probability: Decimal = clamp_probability(self.prob.prob(front, back));
        let estimate: Decimal = shrink_front(front, back, change, probability)?;
        // The quantity change by trades is reflected in the depth now.
        Some(QueuePos { front_q_qty: estimate.min(new_qty), cum_trade_qty: Decimal::zero() })
    }
}

/// This probability model uses a logarithmic function `f(x) = log(1 + x)` to adjust the
/// probability which is calculated as `f(back) / (f(back) + f(front))`.
#[derive(Clone, Copy, Debug, PartialEq, Eq)]
pub struct LogProbQueueFunc(());

impl LogProbQueueFunc {
    /// Constructs an instance of `LogProbQueueFunc`.
    pub fn new() -> (r: LogProbQueueFunc)
        ensures
            r == LogProbQueueFunc::the(),
    {
        LogProbQueueFunc(())
    }

    /// The function, of which there is one.
    pub closed spec fn the() -> LogProbQueueFunc {
        LogProbQueueFunc(())
    }
}

/// This probability model uses a logarithmic function `f(x) = log(1 + x)` to adjust the
/// probability which is calculated as `f(back) / f(back + front)`.
#[derive(Clone, Copy, Debug, PartialEq, Eq)]
pub struct LogProbQueueFunc2(());

impl LogProbQueueFunc2 {
    /// Constructs an instance of `LogProbQueueFunc2`.
    pub fn new() -> (r: LogProbQueueFunc2)
        ensures
            r == LogProbQueueFunc2::the(),
    {
        LogProbQueueFunc2(())
    }

    /// The function, of which there is one.
    pub closed spec fn the() -> LogProbQueueFunc2 {
        LogProbQueueFunc2(())
    }
}

/// The smaller of two values.
pub open spec fn least(a: int, b: int) -> int {
    if a <= b {
        a
    } else {
        b
    }
}

/// A trade at the price of an order first takes the queue ahead: no more than that and no more than
/// was traded. What is left of the trade can be executed. So the queue that goes and the quantity
/// that can be executed make up the trade, and the order is reached only where no queue is left.
pub proof fn trades_take_the_queue_ahead_first<MD: MarketDepth>(
    model: RiskAdverseQueueModel<MD>,
    order: OrderTerms,
    front: Decimal,
    qty: Decimal,
    left: Decimal,
    book: Book,
)
    requires
        front@ >= 0,
        qty@ >= 0,
        exact_difference(front, qty, left),
    ensures
        model.after_trade(order, front, qty, book) matches Some(after) && {
            &&& after.0@ >= 0
            &&& after.1@ >= 0
            &&& (front@ - after.0@) + after.1@ == qty@
            &&& after.1@ > 0 ==> after.0@ == 0
            &&& qty@ <= front@ ==> after.1@ == 0
        },
{
    lemma_small_wholes();
    lemma_negated(left);
}

/// The probability model moves the queue with a trade as the other model does, and remembers how
/// much was traded since the depth last changed.
pub proof fn trades_are_remembered<P: Probability, MD: MarketDepth>(
    model: ProbQueueModel<P, MD>,
    order: OrderTerms,
    state: QueuePos,
    qty: Decimal,
    left: Decimal,
    total: Decimal,
    book: Book,
)
    requires
        state.front_q_qty@ >= 0,
        qty@ >= 0,
        exact_difference(state.front_q_qty, qty, left),
        exact_sum(state.cum_trade_qty, qty, total),
    ensures
        model.after_trade(order, state, qty, book) matches Some(after) && {
            &&& after.0.cum_trade_qty@ == state.cum_trade_qty@ + qty@
            &&& after.0.front_q_qty@ >= 0
            &&& after.1@ >= 0
            &&& (state.front_q_qty@ - after.0.front_q_qty@) + after.1@ == qty@
            &&& after.1@ > 0 ==> after.0.front_q_qty@ == 0
        },
{
    lemma_small_wholes();
    lemma_negated(left);
}

/// A new order stands behind all that is offered at its price on its own side, in either model, and
/// nothing has been traded yet.
pub proof fn new_orders_stand_last<P: Probability, MD: MarketDepth>(
    cautious: RiskAdverseQueueModel<MD>,
    model: ProbQueueModel<P, MD>,
    order: OrderTerms,
    book: Book,
)
    ensures
        order.side == Side::Buy ==> cautious.starting(order, book) == quantity(
            book.bids,
            order.price@,
        ),
        order.side == Side::Sell ==> cautious.starting(order, book) == quantity(
            book.asks,
            order.price@,
        ),
        model.starting(order, book).front_q_qty == cautious.starting(order, book),
        model.starting(order, book).cum_trade_qty@ == 0,
{
    lemma_small_wholes();
}

/// The depth alone never moves an order in the cautious model.
pub proof fn depth_alone_moves_nothing<MD: MarketDepth>(
    model: RiskAdverseQueueModel<MD>,
    order: OrderTerms,
    front: Decimal,
    prev_qty: Decimal,
    new_qty: Decimal,
    book: Book,
)
    ensures
        model.after_depth(order, front, prev_qty, new_qty, book) == Some(front),
{
}

/// A probability is brought between zero and one, and stays as it is where it is between them.
pub proof fn probabilities_are_clamped(probability: Decimal)
    ensures
        0 <= clamped(probability)@ <= Decimal::whole(1)@,
        0 <= probability@ <= Decimal::whole(1)@ ==> clamped(probability)@ == probability@,
        probability@ < 0 ==> clamped(probability)@ == 0,
        probability@ > Decimal::whole(1)@ ==> clamped(probability)@ == Decimal::whole(1)@,
{
    lemma_small_wholes();
}

/// The numbers that a decrease of the depth goes through.
pub struct Sharing {
    /// The queue behind the order.
    pub back: Decimal,
    /// The probability of a decrease ahead of the order.
    pub ahead: Decimal,
    /// The part of the decrease behind the order.
    pub behind: Decimal,
    /// The part of the decrease ahead of the order.
    pub gone: Decimal,
    /// What is left behind the order.
    pub rest: Decimal,
    /// What is left ahead of the order.
    pub left: Decimal,
    /// What is left ahead of the order, less what the queue behind it could not give.
    pub estimate: Decimal,
}

/// Whether none of these numbers is rounded, for a decrease by `beyond` and a probability of it
/// behind the order of `p`.
pub open spec fn shared_exactly(
    sharing: Sharing,
    prev_qty: Decimal,
    front: Decimal,
    beyond: Decimal,
    p: Decimal,
) -> bool {
    &&& exact_difference(prev_qty, front, sharing.back)
    &&& exact_difference(Decimal::whole(1), p, sharing.ahead)
    &&& exact_product(p, beyond, sharing.behind)
    &&& exact_product(sharing.ahead, beyond, sharing.gone)
    &&& exact_difference(sharing.back, sharing.behind, sharing.rest)
    &&& exact_difference(front, sharing.gone, sharing.left)
    &&& exact_sum(sharing.left, sharing.rest.smaller(Decimal::whole(0)), sharing.estimate)
}

/// Only the decrease of the depth beyond what was traded at the price since the depth last changed
/// moves an order, as trades have moved it by the rest.
///
/// Where the depth fell by no more than was traded, or grew, the queue ahead stays as it is, up to
/// the new quantity. Where it fell by more, the queue ahead shrinks by a share of the decrease
/// beyond the trades, by what the queue behind cannot give of its own share, and by nothing else;
/// it stays at most the new quantity, and loses at most the decrease beyond the trades. The share
/// behind the order is the probability of the model, brought between zero and one. What was traded
/// is forgotten in every case. This is stated where no number is rounded.
pub proof fn only_decreases_beyond_trades_move_the_order<P: Probability, MD: MarketDepth>(
    model: ProbQueueModel<P, MD>,
    order: OrderTerms,
    state: QueuePos,
    prev_qty: Decimal,
    new_qty: Decimal,
    book: Book,
    decrease: Decimal,
    beyond: Decimal,
    sharing: Sharing,
)
    requires
        exact_difference(prev_qty, new_qty, decrease),
        exact_difference(decrease, state.cum_trade_qty, beyond),
        0 <= state.cum_trade_qty@,
        0 <= state.front_q_qty@ <= prev_qty@,
        prev_qty@ - new_qty@ >= state.cum_trade_qty@ ==> shared_exactly(
            sharing,
            prev_qty,
            state.front_q_qty,
            beyond,
            clamped(model.prob.probability(state.front_q_qty, sharing.back)),
        ),
    ensures
        model.after_depth(order, state, prev_qty, new_qty, book) matches Some(pos) && {
            let front = state.front_q_qty@;
            let moved = prev_qty@ - new_qty@ - state.cum_trade_qty@;
            let p = clamped(model.prob.probability(state.front_q_qty, sharing.back))@;
            let after = pos.front_q_qty@;
            &&& pos.cum_trade_qty@ == 0
            &&& moved <= 0 ==> after == least(front, new_qty@)
            &&& moved > 0 ==> {
                &&& after <= new_qty@
                &&& least(front - moved, new_qty@) <= after <= least(front, new_qty@)
                &&& sharing.behind@ * pow10(28) == p * moved
                &&& prev_qty@ - front >= sharing.behind@ ==> after == least(
                    front - (moved - sharing.behind@),
                    new_qty@,
                )
                &&& prev_qty@ - front < sharing.behind@ ==> after == least(
                    prev_qty@ - moved,
                    new_qty@,
                )
            }
        },
{
    lemma_small_wholes();
    if prev_qty@ - new_qty@ >= state.cum_trade_qty@ {
        let p = clamped(model.prob.probability(state.front_q_qty, sharing.back));
        let unit = pow10(28);
        let b = beyond@;
        probabilities_are_clamped(model.prob.probability(state.front_q_qty, sharing.back));
        assert(0 <= p@ <= unit);
        assert(0 <= p@ * b <= unit * b) by (nonlinear_arith)
            requires
                0 <= p@ <= unit,
                b >= 0,
        ;
        assert(p@ * b + (unit - p@) * b == unit * b) by (nonlinear_arith);
        assert(sharing.behind@ + sharing.gone@ == b) by (nonlinear_arith)
            requires
                sharing.behind@ * unit + sharing.gone@ * unit == unit * b,
                unit > 0,
        ;
        assert(0 <= sharing.behind@ <= b) by (nonlinear_arith)
            requires
                0 <= sharing.behind@ * unit <= unit * b,
                unit > 0,
        ;
    }
}

/// A trade and the decrease of the depth that it causes move an order once: where the depth then
/// falls by just what was traded, the queue ahead is what the trade left of it, up to the new
/// quantity.
pub proof fn a_trade_and_its_decrease_move_the_order_once<P: Probability, MD: MarketDepth>(
    model: ProbQueueModel<P, MD>,
    order: OrderTerms,
    state: QueuePos,
    qty: Decimal,
    left: Decimal,
    total: Decimal,
    prev_qty: Decimal,
    new_qty: Decimal,
    book: Book,
    decrease: Decimal,
    beyond: Decimal,
    sharing: Sharing,
)
    requires
        state.cum_trade_qty@ == 0,
        0 <= state.front_q_qty@ <= prev_qty@,
        qty@ >= 0,
        exact_difference(state.front_q_qty, qty, left),
        exact_sum(state.cum_trade_qty, qty, total),
        prev_qty@ - new_qty@ == qty@,
        exact_difference(prev_qty, new_qty, decrease),
        exact_difference(decrease, total, beyond),
        model.after_trade(order, state, qty, book) matches Some(traded) && shared_exactly(
            sharing,
            prev_qty,
            traded.0.front_q_qty,
            beyond,
            clamped(model.prob.probability(traded.0.front_q_qty, sharing.back)),
        ),
    ensures
        model.after_trade(order, state, qty, book) matches Some(traded) && {
            &&& model.after_depth(order, traded.0, prev_qty, new_qty, book) matches Some(pos)
            &&& traded.0.front_q_qty@ == (if qty@ >= state.front_q_qty@ {
                0
            } else {
                state.front_q_qty@ - qty@
            })
            &&& pos.front_q_qty@ == least(traded.0.front_q_qty@, new_qty@)
        },
{
    trades_are_remembered(model, order, state, qty, left, total, book);
    let traded = model.after_trade(order, state, qty, book)->0;
    only_decreases_beyond_trades_move_the_order(
        model,
        order,
        traded.0,
        prev_qty,
        new_qty,
        book,
        decrease,
        beyond,
        sharing,
    );
}

} // verus!
