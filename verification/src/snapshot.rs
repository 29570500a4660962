//! In-memory checkpoints for independently continuing a backtest.
use std::sync::Arc;

use vstd::prelude::*;

use crate::assettype::AssetType;
use crate::assettype::LinearAsset;
use crate::data::reader::share;
use crate::data::reader::Preprocessor;
use crate::data::reader::Reader;
use crate::depth::BTreeMarketDepth;
use crate::depth::Book;
use crate::depth::MarketDepth;
use crate::evs::EventIntentKind;
use crate::evs::EventSet;
use crate::lifecycle::Order;
use crate::lifecycle::OrderRequest;
use crate::lifecycle::OrderUpdate;
use crate::models::fee::CommonFees;
use crate::models::fee::FeeModel;
use crate::models::fee::TradingValueFeeModel;
use crate::models::latency::ConstantLatency;
use crate::models::latency::LatencyModel;
use crate::models::queue::QueueModel;
use crate::models::queue::RiskAdverseQueueModel;
use crate::order_bus::ExchToLocal;
use crate::order_bus::LocalToExch;
use crate::order_bus::Message;
use crate::order_bus::OrderLink;
use crate::processor::local::Local;
use crate::processor::local::OrderRecords;
use crate::processor::local::TradeLog;
use crate::processor::nopartialfillexchange::NoPartialFillExchange;
use crate::processor::nopartialfillexchange::RestingModel;
use crate::processor::nopartialfillexchange::RestingOrder;
use crate::processor::partialfillexchange::PartialFillExchange;
use crate::processor::partialfillexchange::QueuedOrder;
use crate::processor::venue::Venue;
use crate::sorted_map::lemma_viewed_below;
use crate::sorted_map::viewed;
use crate::sorted_map::SortedMap;
use crate::state::State;
use crate::types::Event;
use crate::types::OrderId;
use crate::types::StateValues;

verus! {

/// Opts a model into in-memory snapshots.
///
/// The copy must hold all mutable simulation state independently, including any random-generator
/// state. Only immutable configuration may be shared. Copying must not replay events, perform I/O,
/// or share a mutable data cursor. This is deliberately not implemented for every model.
pub trait SnapshotState: Sized {
    /// Copies the state.
    fn copy_state(&self) -> (r: Self)
        ensures
            r == *self,
    ;
}

impl SnapshotState for LinearAsset {
    fn copy_state(&self) -> (r: Self) {
        *self
    }
}

impl SnapshotState for ConstantLatency {
    fn copy_state(&self) -> (r: Self) {
        *self
    }
}

impl SnapshotState for TradingValueFeeModel<CommonFees> {
    fn copy_state(&self) -> (r: Self) {
        *self
    }
}

impl<MD> SnapshotState for RiskAdverseQueueModel<MD> {
    fn copy_state(&self) -> (r: Self) {
        self.copy()
    }
}

/// Opts an order book into in-memory snapshots.
pub trait SnapshotDepth: MarketDepth {
    /// Copies the book.
    fn copy_depth(&self) -> (r: Self)
        ensures
            r.book() == self.book(),
            r.wf() == self.wf(),
    ;
}

impl SnapshotDepth for BTreeMarketDepth {
    fn copy_depth(&self) -> (r: Self) {
        BTreeMarketDepth {
            depth_ready: self.depth_ready,
            timestamp: self.timestamp,
            bid_depth: self.bid_depth.copy(),
            ask_depth: self.ask_depth.copy(),
            best_bid: self.best_bid,
            best_ask: self.best_ask,
        }
    }
}

/// Errors while capturing or restoring a checkpoint.
#[derive(Clone, Copy, Debug, PartialEq, Eq)]
pub enum SnapshotError {
    /// Snapshots were not enabled for this processor.
    Unsupported(&'static str),
}

impl SnapshotError {
    /// What went wrong.
    pub open spec fn said(self) -> Seq<char> {
        match self {
            SnapshotError::Unsupported(name) => "snapshot is not enabled for "@ + name@,
        }
    }

    /// Says what went wrong.
    pub fn message(&self) -> (r: String)
        ensures
            r@ == self.said(),
    {
        match self {
            SnapshotError::Unsupported(name) => {
                let mut text: String = "snapshot is not enabled for ".to_owned();
                text.append(*name);
                text
            },
        }
    }
}

/// A processor of which snapshots can be taken.
pub trait SnapshotProcessor: View + Sized {
    /// Whether the processor is in order.
    spec fn in_order(&self) -> bool;

    /// Whether snapshots may be taken.
    spec fn enabled(&self) -> bool;

    /// The name of the processor, in messages.
    spec fn name() -> Seq<char>;

    /// Copies the simulation state. There is an error where snapshots are not enabled.
    fn snapshot_processor(&self) -> (r: Result<Self, SnapshotError>)
        requires
            self.in_order(),
        ensures
            match r {
                Ok(copy) => self.enabled() && copy@ == self@ && copy.in_order() && copy.enabled(),
                Err(SnapshotError::Unsupported(name)) => !self.enabled() && name@ == Self::name(),
            },
    ;
}

/// Copies resting orders.
fn copy_resting<S: Copy>(orders: &SortedMap<OrderId, RestingOrder<S>>) -> (r: SortedMap<
    OrderId,
    RestingOrder<S>,
>)
    ensures
        viewed(r@) == viewed(orders@),
        r.wf() == orders.wf(),
{
    let mut entries: Vec<(OrderId, RestingOrder<S>)> = Vec::new();
    let mut i: usize = 0;
    while i < orders.entries.len()
        invariant
            i <= orders.entries@.len(),
            entries@.len() == i,
            forall|k: int|
                0 <= k < i ==> (#[trigger] entries@[k]).0 == orders.entries@[k].0
                    && entries@[k].1@ == orders.entries@[k].1@,
        decreases orders.entries@.len() - i,
    {
        let entry: &(OrderId, RestingOrder<S>) = &orders.entries[i];
        entries.push(
            (
                entry.0,
                RestingOrder { order: entry.1.order.copy(), queue_state: entry.1.queue_state },
            ),
        );
        i = i + 1;
    }
    let r: SortedMap<OrderId, RestingOrder<S>> = SortedMap { entries };
    assert(viewed(r@) =~= viewed(orders@));
    proof {
        lemma_viewed_below(r@, 0);
        lemma_viewed_below(orders@, 0);
    }
    r
}

/// Copies orders.
fn copy_orders(orders: &SortedMap<OrderId, Order>) -> (r: SortedMap<OrderId, Order>)
    ensures
        viewed(r@) == viewed(orders@),
        r.wf() == orders.wf(),
{
    let mut entries: Vec<(OrderId, Order)> = Vec::new();
    let mut i: usize = 0;
    while i < orders.entries.len()
        invariant
            i <= orders.entries@.len(),
            entries@.len() == i,
            forall|k: int|
                0 <= k < i ==> (#[trigger] entries@[k]).0 == orders.entries@[k].0
                    && entries@[k].1@ == orders.entries@[k].1@,
        decreases orders.entries@.len() - i,
    {
        let entry: &(OrderId, Order) = &orders.entries[i];
        entries.push((entry.0, entry.1.copy()));
        i = i + 1;
    }
    let r: SortedMap<OrderId, Order> = SortedMap { entries };
    assert(viewed(r@) =~= viewed(orders@));
    proof {
        lemma_viewed_below(r@, 0);
        lemma_viewed_below(orders@, 0);
    }
    r
}

/// The state of an exchange.
pub struct ExchangeState<AT, LM, QM, FM, R> {
    /// The models and rules.
    pub venue: Venue<AT, FM, QM>,
    /// The resting orders.
    pub orders: Seq<(OrderId, R)>,
    /// What was traded.
    pub values: StateValues,
    /// The latency model.
    pub latency: LM,
    /// The book.
    pub book: Book,
}

impl<
    AT: AssetType,
    LM: LatencyModel<OrderRequest, OrderUpdate>,
    QM: QueueModel<MD>,
    MD: MarketDepth,
    FM: FeeModel,
> View for NoPartialFillExchange<AT, LM, QM, MD, FM> {
    type V = ExchangeState<AT, LM, QM, FM, RestingModel<QM::State>>;

    open spec fn view(&self) -> ExchangeState<AT, LM, QM, FM, RestingModel<QM::State>> {
        ExchangeState {
            venue: self.venue(),
            orders: viewed(self.orders@),
            values: self.state.state_values,
            latency: self.order_e2l.order_latency,
            book: self.depth.book(),
        }
    }
}

impl<
    AT: AssetType,
    LM: LatencyModel<OrderRequest, OrderUpdate>,
    QM: QueueModel<MD>,
    MD: MarketDepth,
    FM: FeeModel,
> NoPartialFillExchange<AT, LM, QM, MD, FM> {
    /// Allows snapshots.
    pub fn enable_snapshot(self) -> (r: Self)
        ensures
            r == (NoPartialFillExchange { snapshot_enabled: true, ..self }),
    {
        let mut exchange: Self = self;
        exchange.snapshot_enabled = true;
        exchange
    }
}

impl<
    AT: AssetType + SnapshotState,
    LM: LatencyModel<OrderRequest, OrderUpdate> + SnapshotState,
    QM: QueueModel<MD> + SnapshotState,
    MD: SnapshotDepth,
    FM: FeeModel + SnapshotState,
> SnapshotProcessor for NoPartialFillExchange<AT, LM, QM, MD, FM> {
    open spec fn in_order(&self) -> bool {
        self.wf()
    }

    open spec fn enabled(&self) -> bool {
        self.snapshot_enabled
    }

    open spec fn name() -> Seq<char> {
        "NoPartialFillExchange"@
    }

    fn snapshot_processor(&self) -> (r: Result<Self, SnapshotError>) {
        if !self.snapshot_enabled {
            return Err(SnapshotError::Unsupported("NoPartialFillExchange"));
        }
        Ok(
            NoPartialFillExchange {
                orders: copy_resting(&self.orders),
                order_e2l: ExchToLocal { order_latency: self.order_e2l.order_latency.copy_state() },
                depth: self.depth.copy_depth(),
                state: copy_state(&self.state),
                queue_model: self.queue_model.copy_state(),
                tick_sizes: self.tick_sizes.snapshot(),
                snapshot_enabled: true,
            },
        )
    }
}

/// Copies what was traded, with its models.
fn copy_state<AT: SnapshotState, FM: SnapshotState>(state: &State<AT, FM>) -> (r: State<AT, FM>)
    ensures
        r == *state,
{
    State {
        state_values: state.state_values,
        asset_type: state.asset_type.copy_state(),
        fee_model: state.fee_model.copy_state(),
    }
}

impl<
    AT: AssetType,
    LM: LatencyModel<crate::types::Order, crate::types::Order>,
    QM: QueueModel<MD>,
    MD: MarketDepth,
    FM: FeeModel,
> View for PartialFillExchange<AT, LM, QM, MD, FM> {
    type V = ExchangeState<AT, LM, QM, FM, QueuedOrder<QM::State>>;

    open spec fn view(&self) -> ExchangeState<AT, LM, QM, FM, QueuedOrder<QM::State>> {
        ExchangeState {
            venue: self.venue(),
            orders: self.orders@,
            values: self.state.state_values,
            latency: self.order_e2l.order_latency,
            book: self.depth.book(),
        }
    }
}

impl<
    AT: AssetType,
    LM: LatencyModel<crate::types::Order, crate::types::Order>,
    QM: QueueModel<MD>,
    MD: MarketDepth,
    FM: FeeModel,
> PartialFillExchange<AT, LM, QM, MD, FM> {
    /// Allows snapshots.
    pub fn enable_snapshot(self) -> (r: Self)
        ensures
            r == (PartialFillExchange { snapshot_enabled: true, ..self }),
    {
        let mut exchange: Self = self;
        exchange.snapshot_enabled = true;
        exchange
    }
}

impl<
    AT: AssetType + SnapshotState,
    LM: LatencyModel<crate::types::Order, crate::types::Order> + SnapshotState,
    QM: QueueModel<MD> + SnapshotState,
    MD: SnapshotDepth,
    FM: FeeModel + SnapshotState,
> SnapshotProcessor for PartialFillExchange<AT, LM, QM, MD, FM> {
    open spec fn in_order(&self) -> bool {
        self.wf()
    }

    open spec fn enabled(&self) -> bool {
        self.snapshot_enabled
    }

    open spec fn name() -> Seq<char> {
        "PartialFillExchange"@
    }

    fn snapshot_processor(&self) -> (r: Result<Self, SnapshotError>) {
        if !self.snapshot_enabled {
            return Err(SnapshotError::Unsupported("PartialFillExchange"));
        }
        Ok(
            PartialFillExchange {
                orders: self.orders.copy(),
                order_e2l: ExchToLocal { order_latency: self.order_e2l.order_latency.copy_state() },
                depth: self.depth.copy_depth(),
                state: copy_state(&self.state),
                queue_model: self.queue_model.copy_state(),
                tick_sizes: self.tick_sizes.snapshot(),
                snapshot_enabled: true,
            },
        )
    }
}

/// The state of the local side.
pub struct LocalState<AT, LM, FM> {
    /// What is known of the orders.
    pub records: OrderRecords,
    /// The number of the next request.
    pub next_request_id: u64,
    /// The latency model.
    pub latency: LM,
    /// The type of the asset.
    pub asset_type: AT,
    /// The fee model.
    pub fee_model: FM,
    /// The book.
    pub book: Book,
    /// The trades that are remembered.
    pub log: TradeLog,
    /// Whether trades are recorded.
    pub record_trades: bool,
    /// How long trades are remembered.
    pub trade_horizon: Option<u128>,
    /// When the latest event happened, and when it was seen.
    pub last_feed_latency: Option<(i64, i64)>,
}

impl<
    AT: AssetType,
    LM: LatencyModel<OrderRequest, OrderUpdate>,
    MD: MarketDepth,
    FM: FeeModel,
> View for Local<AT, LM, MD, FM> {
    type V = LocalState<AT, LM, FM>;

    open spec fn view(&self) -> LocalState<AT, LM, FM> {
        LocalState {
            records: self.records(),
            next_request_id: self.next_request_id,
            latency: self.order_l2e.order_latency,
            asset_type: self.state.asset_type,
            fee_model: self.state.fee_model,
            book: self.depth.book(),
            log: self.log(),
            record_trades: self.record_trades,
            trade_horizon: self.trade_horizon,
            last_feed_latency: self.last_feed_latency,
        }
    }
}

impl<
    AT: AssetType,
    LM: LatencyModel<OrderRequest, OrderUpdate>,
    MD: MarketDepth,
    FM: FeeModel,
> Local<AT, LM, MD, FM> {
    /// Allows snapshots.
    pub fn enable_snapshot(self) -> (r: Self)
        ensures
            r == (Local { snapshot_enabled: true, ..self }),
    {
        let mut local: Self = self;
        local.snapshot_enabled = true;
        local
    }
}

/// Copies events.
fn copy_events(events: &std::collections::VecDeque<Event>) -> (r: std::collections::VecDeque<Event>)
    ensures
        r@ == events@,
{
    let mut r: std::collections::VecDeque<Event> = std::collections::VecDeque::new();
    let mut i: usize = 0;
    while i < events.len()
        invariant
            i <= events@.len(),
            r@ =~= events@.take(i as int),
        decreases events@.len() - i,
    {
        r.push_back(events[i]);
        i = i + 1;
    }
    r
}

impl<
    AT: AssetType + SnapshotState,
    LM: LatencyModel<OrderRequest, OrderUpdate> + SnapshotState,
    MD: SnapshotDepth,
    FM: FeeModel + SnapshotState,
> SnapshotProcessor for Local<AT, LM, MD, FM> {
    open spec fn in_order(&self) -> bool {
        self.wf()
    }

    open spec fn enabled(&self) -> bool {
        self.snapshot_enabled
    }

    open spec fn name() -> Seq<char> {
        "L2 local processor"@
    }

    fn snapshot_processor(&self) -> (r: Result<Self, SnapshotError>) {
        if !self.snapshot_enabled {
            return Err(SnapshotError::Unsupported("L2 local processor"));
        }
        Ok(
            Local {
                orders: copy_orders(&self.orders),
                pending_requests: self.pending_requests.copy(),
                last_request_results: self.last_request_results.copy(),
                next_request_id: self.next_request_id,
                order_l2e: LocalToExch { order_latency: self.order_l2e.order_latency.copy_state() },
                depth: self.depth.copy_depth(),
                state: copy_state(&self.state),
                trades: copy_events(&self.trades),
                record_trades: self.record_trades,
                trade_horizon: self.trade_horizon,
                trade_time: self.trade_time,
                trades_since: self.trades_since,
                last_feed_latency: self.last_feed_latency,
                last_order_latency: self.last_order_latency,
                snapshot_enabled: true,
            },
        )
    }
}

/// A processor and the place in its feed.
#[derive(Debug)]
pub struct BacktestProcessorState<P, F> {
    /// The current chunk of the feed.
    pub data: Arc<Vec<Event>>,
    /// The processor.
    pub processor: P,
    /// The chunks of the feed.
    pub reader: Reader<Event, F>,
    /// The row that was reached.
    pub row: usize,
}

impl<P: View, F: Preprocessor<Event>> BacktestProcessorState<P, F> {
    /// Whether another state is that of the same processor at the same place of the same feed.
    pub open spec fn same_replay(&self, other: &BacktestProcessorState<P, F>) -> bool {
        &&& self.processor@ == other.processor@
        &&& self.data@ == other.data@
        &&& self.row == other.row
        &&& self.reader.chunks() == other.reader.chunks()
        &&& self.reader.place() == other.reader.place()
        &&& self.reader.loads_ahead() == other.reader.loads_ahead()
        &&& self.reader.change() == other.reader.change()
    }

    /// The same place in the feed for another processor.
    pub fn snapshot_with(&self, processor: P) -> (r: BacktestProcessorState<P, F>)
        ensures
            r.processor == processor,
            r.data@ == self.data@,
            r.row == self.row,
            r.reader.chunks() == self.reader.chunks(),
            r.reader.place() == self.reader.place(),
            r.reader.loads_ahead() == self.reader.loads_ahead(),
            r.reader.change() == self.reader.change(),
    {
        BacktestProcessorState {
            data: share(&self.data),
            processor,
            reader: self.reader.fork(),
            row: self.row,
        }
    }
}

/// Copies processors with their places in their feeds. There is an error where snapshots are not
/// enabled for one of them.
fn copy_processors<P: SnapshotProcessor, F: Preprocessor<Event>>(
    states: &Vec<BacktestProcessorState<P, F>>,
) -> (r: Result<Vec<BacktestProcessorState<P, F>>, SnapshotError>)
    requires
        forall|i: int| 0 <= i < states@.len() ==> (#[trigger] states@[i]).processor.in_order(),
    ensures
        match r {
            Ok(copies) => all_enabled(states@) && all_enabled(copies@) && all_in_order(copies@)
                && same_replays(states@, copies@),
            Err(SnapshotError::Unsupported(name)) => !all_enabled(states@) && name@ == P::name(),
        },
{
    let mut copies: Vec<BacktestProcessorState<P, F>> = Vec::new();
    let mut i: usize = 0;
    while i < states.len()
        invariant
            i <= states@.len(),
            copies@.len() == i,
            forall|k: int| 0 <= k < states@.len() ==> (#[trigger] states@[k]).processor.in_order(),
            forall|k: int|
                0 <= k < i ==> (#[trigger] states@[k]).same_replay(&copies@[k])
                    && states@[k].processor.enabled(),
            forall|k: int|
                0 <= k < i ==> (#[trigger] copies@[k]).processor.enabled()
                    && copies@[k].processor.in_order(),
        decreases states@.len() - i,
    {
        match states[i].processor.snapshot_processor() {
            Ok(processor) => {
                copies.push(states[i].snapshot_with(processor));
            },
            Err(error) => {
                assert(!states@[i as int].processor.enabled());
                return Err(error);
            },
        }
        i = i + 1;
    }
    Ok(copies)
}

/// Whether snapshots are enabled for all processors.
pub open spec fn all_enabled<P: SnapshotProcessor, F>(
    states: Seq<BacktestProcessorState<P, F>>,
) -> bool {
    forall|i: int| 0 <= i < states.len() ==> (#[trigger] states[i]).processor.enabled()
}

/// Whether all processors are in order.
pub open spec fn all_in_order<P: SnapshotProcessor, F>(
    states: Seq<BacktestProcessorState<P, F>>,
) -> bool {
    forall|i: int| 0 <= i < states.len() ==> (#[trigger] states[i]).processor.in_order()
}

/// Whether states are those of the same processors at the same places of the same feeds.
pub open spec fn same_replays<P: View, F: Preprocessor<Event>>(
    a: Seq<BacktestProcessorState<P, F>>,
    b: Seq<BacktestProcessorState<P, F>>,
) -> bool {
    &&& a.len() == b.len()
    &&& forall|i: int| 0 <= i < a.len() ==> (#[trigger] a[i]).same_replay(&b[i])
}

/// Whether the next events are the same.
pub open spec fn same_events(a: &EventSet, b: &EventSet) -> bool {
    &&& a.assets() == b.assets()
    &&& forall|asset: int, kind: EventIntentKind|
        0 <= asset < a.assets() ==> #[trigger] a.due(asset, kind) == b.due(asset, kind)
}

/// Whether the messages under way are the same.
pub open spec fn same_links<Q: View, R: View>(
    a: Seq<OrderLink<Q, R>>,
    b: Seq<OrderLink<Q, R>>,
) -> bool {
    &&& a.len() == b.len()
    &&& forall|i: int|
        0 <= i < a.len() ==> (#[trigger] a[i]).to_exch@ == b[i].to_exch@ && a[i].to_local@
            == b[i].to_local@
}

/// Copies the messages under way.
fn copy_links<Q: Message, R: Message>(links: &Vec<OrderLink<Q, R>>) -> (r: Vec<OrderLink<Q, R>>)
    ensures
        same_links(links@, r@),
{
    let mut r: Vec<OrderLink<Q, R>> = Vec::new();
    let mut i: usize = 0;
    while i < links.len()
        invariant
            i <= links@.len(),
            r@.len() == i,
            forall|k: int|
                0 <= k < i ==> (#[trigger] links@[k]).to_exch@ == r@[k].to_exch@
                    && links@[k].to_local@ == r@[k].to_local@,
        decreases links@.len() - i,
    {
        r.push(links[i].snapshot());
        i = i + 1;
    }
    r
}

/// A backtest: the local sides and the exchanges of its assets, what is under way between them, and
/// what happens next.
#[derive(Debug)]
pub struct Backtest<L, E, Q, R, F> {
    /// The current time.
    pub cur_ts: i64,
    /// What happens next.
    pub evs: EventSet,
    /// What is under way between the local side and the exchange, for each asset.
    pub links: Vec<OrderLink<Q, R>>,
    /// The local sides.
    pub local: Vec<BacktestProcessorState<L, F>>,
    /// The exchanges.
    pub exch: Vec<BacktestProcessorState<E, F>>,
}

impl<
    L: SnapshotProcessor,
    E: SnapshotProcessor,
    Q: Message,
    R: Message,
    F: Preprocessor<Event>,
> Backtest<L, E, Q, R, F> {
    /// Whether all processors are in order.
    pub open spec fn wf(&self) -> bool {
        all_in_order(self.local@) && all_in_order(self.exch@)
    }

    /// Whether snapshots may be taken.
    pub open spec fn snapshotable(&self) -> bool {
        all_enabled(self.local@) && all_enabled(self.exch@)
    }

    /// Whether another backtest is in the same state: whatever happens to one of them happens to
    /// the other.
    pub open spec fn same_state(&self, other: &Backtest<L, E, Q, R, F>) -> bool {
        &&& self.cur_ts == other.cur_ts
        &&& same_events(&self.evs, &other.evs)
        &&& same_links(self.links@, other.links@)
        &&& same_replays(self.local@, other.local@)
        &&& same_replays(self.exch@, other.exch@)
    }

    /// Creates an independent branch at the current state without advancing this replay.
    ///
    /// The branch survives dropping this replay. Strategy-owned state must be copied separately.
    /// Use [`Self::snapshot`] when several branches should reuse a saved checkpoint later.
    pub fn fork(&self) -> (r: Result<Self, SnapshotError>)
        requires
            self.wf(),
        ensures
            r is Ok == self.snapshotable(),
            r matches Ok(branch) ==> self.same_state(&branch) && branch.wf()
                && branch.snapshotable(),
            r matches Err(SnapshotError::Unsupported(name)) ==> name@ == (if all_enabled(
                self.local@,
            ) {
                E::name()
            } else {
                L::name()
            }),
    {
        self.snapshot_state()
    }

    /// Captures the state between public bot calls without advancing time or reading feed files.
    ///
    /// Snapshots must be enabled for the processors. Pending requests and responses need not be
    /// drained first. Cost is proportional to mutable state, not to the length of the historical
    /// prefix.
    pub fn snapshot(&self) -> (r: Result<BacktestSnapshot<L, E, Q, R, F>, SnapshotError>)
        requires
            self.wf(),
        ensures
            r is Ok == self.snapshotable(),
            r matches Ok(saved) ==> self.same_state(&saved.saved()) && saved.saved().wf()
                && saved.saved().snapshotable(),
            r matches Err(SnapshotError::Unsupported(name)) ==> name@ == (if all_enabled(
                self.local@,
            ) {
                E::name()
            } else {
                L::name()
            }),
    {
        match self.snapshot_state() {
            Ok(state) => Ok(BacktestSnapshot { state }),
            Err(error) => Err(error),
        }
    }

    /// Copies the state.
    fn snapshot_state(&self) -> (r: Result<Self, SnapshotError>)
        requires
            self.wf(),
        ensures
            r is Ok == self.snapshotable(),
            r matches Ok(branch) ==> self.same_state(&branch) && branch.wf()
                && branch.snapshotable(),
            r matches Err(SnapshotError::Unsupported(name)) ==> name@ == (if all_enabled(
                self.local@,
            ) {
                E::name()
            } else {
                L::name()
            }),
    {
        let local: Vec<BacktestProcessorState<L, F>> = match copy_processors(&self.local) {
            Ok(local) => local,
            Err(error) => {
                return Err(error);
            },
        };
        let exch: Vec<BacktestProcessorState<E, F>> = match copy_processors(&self.exch) {
            Ok(exch) => exch,
            Err(error) => {
                return Err(error);
            },
        };
        Ok(
            Backtest {
                cur_ts: self.cur_ts,
                evs: self.evs.snapshot(),
                links: copy_links(&self.links),
                local,
                exch,
            },
        )
    }
}

/// An opaque, reusable in-memory checkpoint; not a serialized or cross-thread snapshot.
///
/// Strategy-owned state is not part of it and must be saved separately at the same decision
/// boundary. Files must remain unchanged while a snapshot lives.
#[derive(Debug)]
pub struct BacktestSnapshot<L, E, Q, R, F> {
    state: Backtest<L, E, Q, R, F>,
}

impl<
    L: SnapshotProcessor,
    E: SnapshotProcessor,
    Q: Message,
    R: Message,
    F: Preprocessor<Event>,
> BacktestSnapshot<L, E, Q, R, F> {
    /// The saved backtest.
    pub closed spec fn saved(&self) -> Backtest<L, E, Q, R, F> {
        self.state
    }

    /// Creates an independent replay at the checkpoint, without replaying its history.
    ///
    /// The checkpoint is reusable and survives advancing or dropping its original backtest.
    pub fn restore(&self) -> (r: Result<Backtest<L, E, Q, R, F>, SnapshotError>)
        requires
            self.saved().wf(),
        ensures
            r is Ok == self.saved().snapshotable(),
            r matches Ok(branch) ==> self.saved().same_state(&branch) && branch.wf()
                && branch.snapshotable(),
            r matches Err(SnapshotError::Unsupported(name)) ==> name@ == (if all_enabled(
                self.saved().local@,
            ) {
                E::name()
            } else {
                L::name()
            }),
    {
        self.state.snapshot_state()
    }

    /// Returns the exact saved simulation timestamp.
    pub fn timestamp(&self) -> (r: i64)
        ensures
            r == self.saved().cur_ts,
    {
        self.state.cur_ts
    }
}

/// A backtest that is restored from a checkpoint is in the state in which the checkpoint was taken,
/// and so are all backtests that are restored from it.
pub proof fn restoring_gives_the_saved_state<
    L: SnapshotProcessor,
    E: SnapshotProcessor,
    Q: Message,
    R: Message,
    F: Preprocessor<Event>,
>(
    source: Backtest<L, E, Q, R, F>,
    saved: Backtest<L, E, Q, R, F>,
    first: Backtest<L, E, Q, R, F>,
    second: Backtest<L, E, Q, R, F>,
)
    requires
        source.same_state(&saved),
        saved.same_state(&first),
        saved.same_state(&second),
    ensures
        source.same_state(&first),
        source.same_state(&second),
        first.same_state(&second),
{
    lemma_same_state(source, saved, first);
    lemma_same_state(source, saved, second);
    assert forall|i: int| 0 <= i < first.local@.len() implies (#[trigger] first.local@[i]).same_replay(
        &second.local@[i],
    ) by {
        assert(saved.local@[i].same_replay(&first.local@[i]));
        assert(saved.local@[i].same_replay(&second.local@[i]));
    }
    assert forall|i: int| 0 <= i < first.exch@.len() implies (#[trigger] first.exch@[i]).same_replay(
        &second.exch@[i],
    ) by {
        assert(saved.exch@[i].same_replay(&first.exch@[i]));
        assert(saved.exch@[i].same_replay(&second.exch@[i]));
    }
    assert forall|i: int| 0 <= i < first.links@.len() implies (#[trigger] first.links@[i]).to_exch@
        == second.links@[i].to_exch@ && first.links@[i].to_local@
        == second.links@[i].to_local@ by {
        assert(saved.links@[i].to_exch@ == first.links@[i].to_exch@);
    }
    assert forall|asset: int, kind: EventIntentKind|
        0 <= asset < first.evs.assets() implies #[trigger] first.evs.due(asset, kind)
        == second.evs.due(asset, kind) by {
        assert(saved.evs.due(asset, kind) == first.evs.due(asset, kind));
    }
}

/// Being in the same state carries over.
proof fn lemma_same_state<
    L: SnapshotProcessor,
    E: SnapshotProcessor,
    Q: Message,
    R: Message,
    F: Preprocessor<Event>,
>(
    a: Backtest<L, E, Q, R, F>,
    b: Backtest<L, E, Q, R, F>,
    c: Backtest<L, E, Q, R, F>,
)
    requires
        a.same_state(&b),
        b.same_state(&c),
    ensures
        a.same_state(&c),
{
    assert forall|i: int| 0 <= i < a.local@.len() implies (#[trigger] a.local@[i]).same_replay(
        &c.local@[i],
    ) by {
        assert(b.local@[i].same_replay(&c.local@[i]));
    }
    assert forall|i: int| 0 <= i < a.exch@.len() implies (#[trigger] a.exch@[i]).same_replay(
        &c.exch@[i],
    ) by {
        assert(b.exch@[i].same_replay(&c.exch@[i]));
    }
    assert forall|i: int| 0 <= i < a.links@.len() implies (#[trigger] a.links@[i]).to_exch@
        == c.links@[i].to_exch@ && a.links@[i].to_local@ == c.links@[i].to_local@ by {
        assert(b.links@[i].to_exch@ == c.links@[i].to_exch@);
    }
    assert forall|asset: int, kind: EventIntentKind|
        0 <= asset < a.evs.assets() implies #[trigger] a.evs.due(asset, kind) == c.evs.due(
        asset,
        kind,
    ) by {
        assert(b.evs.due(asset, kind) == c.evs.due(asset, kind));
    }
}

} // verus!
