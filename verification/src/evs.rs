//! The timestamps of the next events of each asset.
use vstd::prelude::*;

verus! {

/// The next event to be processed.
#[derive(Clone, Copy, Debug, PartialEq, Eq, Structural)]
pub struct EventIntent {
    /// When it is due.
    pub timestamp: i64,
    /// The asset that it belongs to.
    pub asset_no: usize,
    /// What it is.
    pub kind: EventIntentKind,
}

/// What kind of event is due.
#[derive(Debug, Eq, PartialEq, Clone, Copy, Structural)]
pub enum EventIntentKind {
    /// Market data reaches the local side.
    LocalData,
    /// An order response reaches the local side.
    LocalOrder,
    /// Market data reaches the exchange.
    ExchData,
    /// An order request reaches the exchange.
    ExchOrder,
}

impl EventIntentKind {
    /// The place among events that are due at the same time.
    pub open spec fn place(self) -> int {
        match self {
            EventIntentKind::LocalData => 0,
            EventIntentKind::LocalOrder => 1,
            EventIntentKind::ExchData => 2,
            EventIntentKind::ExchOrder => 3,
        }
    }
}

/// When the next event of each kind is due; `i64::MAX` where there is none.
#[derive(Clone, Copy, Debug, PartialEq, Eq, Structural)]
struct Timestamps {
    local_data: i64,
    local_order: i64,
    exch_data: i64,
    exch_order: i64,
}

impl Timestamps {
    spec fn at(self, kind: EventIntentKind) -> i64 {
        match kind {
            EventIntentKind::LocalData => self.local_data,
            EventIntentKind::LocalOrder => self.local_order,
            EventIntentKind::ExchData => self.exch_data,
            EventIntentKind::ExchOrder => self.exch_order,
        }
    }

    fn get(&self, kind: EventIntentKind) -> (r: i64)
        ensures
            r == self.at(kind),
    {
        match kind {
            EventIntentKind::LocalData => self.local_data,
            EventIntentKind::LocalOrder => self.local_order,
            EventIntentKind::ExchData => self.exch_data,
            EventIntentKind::ExchOrder => self.exch_order,
        }
    }
}

/// Whether an event comes before another of the same time: by the number of the asset, then by the
/// kind.
pub open spec fn comes_first(
    asset: int,
    kind: EventIntentKind,
    other_asset: int,
    other_kind: EventIntentKind,
) -> bool {
    asset < other_asset || (asset == other_asset && kind.place() < other_kind.place())
}

/// Manages the event timestamps to determine the next event to be processed.
#[derive(Debug)]
pub struct EventSet {
    timestamps: Vec<Timestamps>,
}

impl EventSet {
    /// The number of assets.
    pub closed spec fn assets(&self) -> nat {
        self.timestamps@.len()
    }

    /// When an event of an asset is due; `i64::MAX` where there is none.
    pub closed spec fn due(&self, asset_no: int, kind: EventIntentKind) -> i64 {
        self.timestamps@[asset_no].at(kind)
    }

    /// Whether another set holds the same timestamps, but for one.
    pub open spec fn changed(
        &self,
        before: &EventSet,
        asset_no: int,
        kind: EventIntentKind,
        timestamp: i64,
    ) -> bool {
        &&& self.assets() == before.assets()
        &&& forall|a: int, k: EventIntentKind|
            0 <= a < self.assets() ==> #[trigger] self.due(a, k) == (if a == asset_no && k
                == kind {
                timestamp
            } else {
                before.due(a, k)
            })
    }

    /// Copies the timestamps.
    pub fn snapshot(&self) -> (r: EventSet)
        ensures
            r.assets() == self.assets(),
            forall|a: int, k: EventIntentKind|
                0 <= a < self.assets() ==> #[trigger] r.due(a, k) == self.due(a, k),
    {
        let mut timestamps: Vec<Timestamps> = Vec::new();
        let mut i: usize = 0;
        while i < self.timestamps.len()
            invariant
                i <= self.timestamps@.len(),
                timestamps@ =~= self.timestamps@.take(i as int),
            decreases self.timestamps@.len() - i,
        {
            timestamps.push(self.timestamps[i]);
            i = i + 1;
        }
        EventSet { timestamps }
    }

    /// Constructs an instance of `EventSet`.
    pub fn new(num_assets: usize) -> (r: EventSet)
        requires
            num_assets > 0,
        ensures
            r.assets() == num_assets,
            forall|a: int, k: EventIntentKind|
                0 <= a < num_assets ==> #[trigger] r.due(a, k) == i64::MAX,
    {
        let none: Timestamps = Timestamps {
            local_data: i64::MAX,
            local_order: i64::MAX,
            exch_data: i64::MAX,
            exch_order: i64::MAX,
        };
        let mut timestamps: Vec<Timestamps> = Vec::new();
        let mut i: usize = 0;
        while i < num_assets
            invariant
                i <= num_assets,
                timestamps@.len() == i,
                forall|a: int| 0 <= a < i ==> #[trigger] timestamps@[a] == none,
            decreases num_assets - i,
        {
            timestamps.push(none);
            i = i + 1;
        }
        EventSet { timestamps }
    }

    /// The earlier of an event and another that comes behind it in the order of ties.
    fn earlier(
        &self,
        next: Option<EventIntent>,
        asset_no: usize,
        kind: EventIntentKind,
    ) -> (r: Option<EventIntent>)
        requires
            asset_no < self.assets(),
        ensures
            r == (if self.due(asset_no as int, kind) != i64::MAX && (next is None || self.due(
                asset_no as int,
                kind,
            ) < next->0.timestamp) {
                Some(
                    EventIntent {
                        timestamp: self.due(asset_no as int, kind),
                        asset_no,
                        kind,
                    },
                )
            } else {
                next
            }),
    {
        let timestamp: i64 = self.timestamps[asset_no].get(kind);
        let first: bool = match next {
            None => true,
            Some(next) => timestamp < next.timestamp,
        };
        if timestamp != i64::MAX && first {
            Some(EventIntent { timestamp, asset_no, kind })
        } else {
            next
        }
    }

    /// Whether an intent is the earliest event of the first assets, the first one in the order of
    /// ties.
    pub open spec fn is_next(&self, next: Option<EventIntent>, assets: int) -> bool {
        match next {
            None => forall|a: int, k: EventIntentKind|
                0 <= a < assets ==> #[trigger] self.due(a, k) == i64::MAX,
            Some(event) => {
                &&& event.asset_no < assets
                &&& event.timestamp == self.due(event.asset_no as int, event.kind)
                &&& event.timestamp != i64::MAX
                &&& forall|a: int, k: EventIntentKind|
                    0 <= a < assets ==> event.timestamp <= #[trigger] self.due(a, k) && (
                    comes_first(a, k, event.asset_no as int, event.kind) ==> event.timestamp
                        < self.due(a, k))
            },
        }
    }

    /// Returns the next event to be processed, which has the earliest timestamp.
    pub fn next(&self) -> (r: Option<EventIntent>)
        ensures
            self.is_next(r, self.assets() as int),
    {
        let mut next: Option<EventIntent> = None;
        let mut asset_no: usize = 0;
        while asset_no < self.timestamps.len()
            invariant
                asset_no <= self.timestamps@.len(),
                self.is_next(next, asset_no as int),
            decreases self.timestamps@.len() - asset_no,
        {
            next = self.earlier(next, asset_no, EventIntentKind::LocalData);
            next = self.earlier(next, asset_no, EventIntentKind::LocalOrder);
            next = self.earlier(next, asset_no, EventIntentKind::ExchData);
            next = self.earlier(next, asset_no, EventIntentKind::ExchOrder);
            asset_no = asset_no + 1;
        }
        next
    }

    /// Sets the timestamp of an event.
    fn update(&mut self, asset_no: usize, kind: EventIntentKind, timestamp: i64)
        requires
            asset_no < old(self).assets(),
        ensures
            final(self).changed(old(self), asset_no as int, kind, timestamp),
    {
        let mut timestamps: Timestamps = self.timestamps[asset_no];
        match kind {
            EventIntentKind::LocalData => {
                timestamps.local_data = timestamp;
            },
            EventIntentKind::LocalOrder => {
                timestamps.local_order = timestamp;
            },
            EventIntentKind::ExchData => {
                timestamps.exch_data = timestamp;
            },
            EventIntentKind::ExchOrder => {
                timestamps.exch_order = timestamp;
            },
        }
        self.timestamps[asset_no] = timestamps;
    }

    /// Sets when market data reaches the local side.
    pub fn update_local_data(&mut self, asset_no: usize, timestamp: i64)
        requires
            asset_no < old(self).assets(),
        ensures
            final(self).changed(old(self), asset_no as int, EventIntentKind::LocalData, timestamp),
    {
        self.update(asset_no, EventIntentKind::LocalData, timestamp);
    }

    /// Sets when an order response reaches the local side.
    pub fn update_local_order(&mut self, asset_no: usize, timestamp: i64)
        requires
            asset_no < old(self).assets(),
        ensures
            final(self).changed(old(self), asset_no as int, EventIntentKind::LocalOrder, timestamp),
    {
        self.update(asset_no, EventIntentKind::LocalOrder, timestamp);
    }

    /// Sets when market data reaches the exchange.
    pub fn update_exch_data(&mut self, asset_no: usize, timestamp: i64)
        requires
            asset_no < old(self).assets(),
        ensures
            final(self).changed(old(self), asset_no as int, EventIntentKind::ExchData, timestamp),
    {
        self.update(asset_no, EventIntentKind::ExchData, timestamp);
    }

    /// Sets when an order request reaches the exchange.
    pub fn update_exch_order(&mut self, asset_no: usize, timestamp: i64)
        requires
            asset_no < old(self).assets(),
        ensures
            final(self).changed(old(self), asset_no as int, EventIntentKind::ExchOrder, timestamp),
    {
        self.update(asset_no, EventIntentKind::ExchOrder, timestamp);
    }

    /// Says that no more market data reaches the local side.
    pub fn invalidate_local_data(&mut self, asset_no: usize)
        requires
            asset_no < old(self).assets(),
        ensures
            final(self).changed(old(self), asset_no as int, EventIntentKind::LocalData, i64::MAX),
    {
        self.update(asset_no, EventIntentKind::LocalData, i64::MAX);
    }

    /// Says that no more market data reaches the exchange.
    pub fn invalidate_exch_data(&mut self, asset_no: usize)
        requires
            asset_no < old(self).assets(),
        ensures
            final(self).changed(old(self), asset_no as int, EventIntentKind::ExchData, i64::MAX),
    {
        self.update(asset_no, EventIntentKind::ExchData, i64::MAX);
    }
}

/// Copying leaves the next event as it was: two sets that hold the same timestamps have the same
/// next event.
pub proof fn next_is_determined_by_timestamps(
    a: &EventSet,
    b: &EventSet,
    x: Option<EventIntent>,
    y: Option<EventIntent>,
)
    requires
        a.assets() == b.assets(),
        forall|i: int, k: EventIntentKind| 0 <= i < a.assets() ==> #[trigger] a.due(i, k) == b.due(i, k),
        a.is_next(x, a.assets() as int),
        b.is_next(y, b.assets() as int),
    ensures
        x == y,
{
    if x is Some {
        let e = x->0;
        assert(a.due(e.asset_no as int, e.kind) == b.due(e.asset_no as int, e.kind));
    }
    if y is Some {
        let e = y->0;
        assert(a.due(e.asset_no as int, e.kind) == b.due(e.asset_no as int, e.kind));
    }
    if x is Some && y is Some {
        let e = x->0;
        let f = y->0;
        assert(comes_first(e.asset_no as int, e.kind, f.asset_no as int, f.kind) || comes_first(
            f.asset_no as int,
            f.kind,
            e.asset_no as int,
            e.kind,
        ) || (e.asset_no == f.asset_no && e.kind == f.kind));
    }
}

/// Of events that are due at the same time, that of the asset with the lower number comes first. Of
/// those of one asset the local side comes before the exchange, and on either side market data comes
/// before orders.
pub proof fn ties_go_to_the_local_side_and_to_data(
    set: &EventSet,
    event: EventIntent,
    asset_no: int,
    timestamp: i64,
)
    requires
        set.is_next(Some(event), set.assets() as int),
        0 <= asset_no < set.assets(),
        event.timestamp == timestamp,
    ensures
        forall|kind: EventIntentKind|
            #[trigger] set.due(asset_no, kind) == timestamp ==> event.asset_no <= asset_no,
        event.asset_no == asset_no && set.due(asset_no, EventIntentKind::LocalData) == timestamp
            ==> event.kind == EventIntentKind::LocalData,
        event.asset_no == asset_no && set.due(asset_no, EventIntentKind::LocalOrder) == timestamp
            ==> event.kind == EventIntentKind::LocalData || event.kind
            == EventIntentKind::LocalOrder,
        event.asset_no == asset_no && set.due(asset_no, EventIntentKind::ExchData) == timestamp
            ==> event.kind != EventIntentKind::ExchOrder,
{
}

} // verus!
