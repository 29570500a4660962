//! Carries messages between the exchange and the local side.
use std::collections::VecDeque;

use vstd::prelude::*;

use crate::error::BacktestError;
use crate::lifecycle::OrderRequest;
use crate::lifecycle::OrderUpdate;
use crate::models::latency::LatencyModel;
use crate::types::Order;

verus! {

/// Whether messages do not overtake each other.
pub open spec fn in_time_order<V>(messages: Seq<(V, i64)>) -> bool {
    forall|i: int, j: int| 0 <= i < j < messages.len() ==> (#[trigger] messages[i]).1 <= (#[trigger] messages[j]).1
}

/// The time at which a message is received: not before the last one that is under way.
pub open spec fn receipt_time<V>(messages: Seq<(V, i64)>, timestamp: i64) -> i64 {
    let latest = if messages.len() == 0 {
        0
    } else {
        messages.last().1
    };
    if timestamp < latest {
        latest
    } else {
        timestamp
    }
}

/// The messages after one was sent.
pub open spec fn sent<V>(messages: Seq<(V, i64)>, message: V, timestamp: i64) -> Seq<(V, i64)> {
    messages.push((message, receipt_time(messages, timestamp)))
}

/// Whether no message should have been received before a time.
pub open spec fn nothing_overdue<V>(messages: Seq<(V, i64)>, timestamp: i64) -> bool {
    messages.len() > 0 ==> messages[0].1 >= timestamp
}

/// Whether a message is received at a time.
pub open spec fn is_due<V>(messages: Seq<(V, i64)>, timestamp: i64) -> bool {
    messages.len() > 0 && messages[0].1 == timestamp
}

/// A message that can be copied.
pub trait Message: View + Sized {
    /// Copies the message.
    fn duplicate(&self) -> (r: Self)
        ensures
            r@ == self@,
    ;
}

impl Message for OrderRequest {
    fn duplicate(&self) -> (r: Self) {
        *self
    }
}

impl Message for OrderUpdate {
    fn duplicate(&self) -> (r: Self) {
        self.copy()
    }
}

impl Message for Order {
    fn duplicate(&self) -> (r: Self) {
        *self
    }
}

/// Provides a time-ordered bus for messages.
///
/// To prevent the timestamps from becoming disordered, it enforces that the timestamp of a message
/// is equal to or greater than the latest timestamp in the bus. It may still be possible for
/// requests sent later to reach a real matching engine before requests sent earlier. For the
/// purpose of simplifying the simulation, all messages are assumed to be in order.
#[derive(Debug)]
pub struct OrderBus<M> {
    // The timestamp is the time at which the message is expected to be received.
    messages: VecDeque<(M, i64)>,
}

impl<M: View> View for OrderBus<M> {
    type V = Seq<(M::V, i64)>;

    closed spec fn view(&self) -> Seq<(M::V, i64)> {
        Seq::new(self.messages@.len(), |i: int| (self.messages@[i].0@, self.messages@[i].1))
    }
}

impl<M: View> OrderBus<M> {
    /// Whether the messages are in order.
    pub open spec fn wf(&self) -> bool {
        in_time_order(self@)
    }

    /// Copies the messages that are under way.
    pub fn snapshot(&self) -> (r: OrderBus<M>) where M: Message
        ensures
            r@ == self@,
    {
        let mut messages: VecDeque<(M, i64)> = VecDeque::new();
        let mut i: usize = 0;
        while i < self.messages.len()
            invariant
                i <= self.messages@.len(),
                messages@.len() == i,
                forall|k: int|
                    0 <= k < i ==> (#[trigger] messages@[k]).0@ == self.messages@[k].0@
                        && messages@[k].1 == self.messages@[k].1,
            decreases self.messages@.len() - i,
        {
            let message: &(M, i64) = &self.messages[i];
            messages.push_back((message.0.duplicate(), message.1));
            i = i + 1;
        }
        let r: OrderBus<M> = OrderBus { messages };
        assert(r@ =~= self@);
        r
    }

    /// An empty bus.
    pub fn new() -> (r: OrderBus<M>)
        ensures
            r@ == Seq::<(M::V, i64)>::empty(),
            r.wf(),
    {
        let r = OrderBus { messages: VecDeque::new() };
        assert(r@ =~= Seq::<(M::V, i64)>::empty());
        r
    }

    /// Returns the timestamp of the earliest message in the bus.
    pub fn earliest_timestamp(&self) -> (r: Option<i64>)
        ensures
            r == (if self@.len() == 0 {
                None
            } else {
                Some(self@[0].1)
            }),
    {
        if self.messages.len() == 0 {
            None
        } else {
            Some(self.messages[0].1)
        }
    }

    /// Appends a message to the bus with the timestamp.
    pub fn append(&mut self, message: M, timestamp: i64)
        requires
            old(self).wf(),
        ensures
            final(self).wf(),
            final(self)@ == sent(old(self)@, message@, timestamp),
    {
        let len: usize = self.messages.len();
        let latest: i64 = if len == 0 {
            0
        } else {
            self.messages[len - 1].1
        };
        let received: i64 = if timestamp < latest {
            latest
        } else {
            timestamp
        };
        self.messages.push_back((message, received));
        assert(self@ =~= sent(old(self)@, message@, timestamp));
        assert(in_time_order(self@)) by {
            let before = old(self)@;
            let after = self@;
            assert forall|i: int, j: int| 0 <= i < j < after.len() implies (#[trigger] after[i]).1
                <= (#[trigger] after[j]).1 by {
                if j < before.len() {
                    assert(before[i].1 <= before[j].1);
                } else if i < before.len() - 1 {
                    assert(before[i].1 <= before[before.len() - 1].1);
                }
            }
        }
    }

    /// Drops every message.
    pub fn reset(&mut self)
        ensures
            final(self).wf(),
            final(self)@ == Seq::<(M::V, i64)>::empty(),
    {
        self.messages.clear();
        assert(self@ =~= Seq::<(M::V, i64)>::empty());
    }

    /// Returns the number of messages in the bus.
    pub fn len(&self) -> (r: usize)
        ensures
            r == self@.len(),
    {
        self.messages.len()
    }

    /// Returns `true` if the bus is empty.
    pub fn is_empty(&self) -> (r: bool)
        ensures
            r == (self@.len() == 0),
    {
        self.messages.len() == 0
    }

    /// Removes the first message and its timestamp and returns it, or `None` if the bus is empty.
    pub fn pop_front(&mut self) -> (r: Option<(M, i64)>)
        requires
            old(self).wf(),
        ensures
            final(self).wf(),
            match r {
                None => old(self)@.len() == 0 && final(self)@ == old(self)@,
                Some((message, timestamp)) => old(self)@.len() > 0 && (message@, timestamp) == old(
                    self,
                )@[0] && final(self)@ == old(self)@.skip(1),
            },
    {
        let r = self.messages.pop_front();
        proof {
            if r is Some {
                assert(self@ =~= old(self)@.skip(1));
            } else {
                assert(self@ =~= old(self)@);
            }
        }
        r
    }

    /// Receives the message that is expected at `timestamp`.
    pub fn receive(&mut self, timestamp: i64) -> (r: Option<M>)
        requires
            old(self).wf(),
            nothing_overdue(old(self)@, timestamp),
        ensures
            final(self).wf(),
            nothing_overdue(final(self)@, timestamp),
            match r {
                None => !is_due(old(self)@, timestamp) && final(self)@ == old(self)@,
                Some(message) => is_due(old(self)@, timestamp) && message@ == old(self)@[0].0
                    && final(self)@ == old(self)@.skip(1),
            },
    {
        match self.earliest_timestamp() {
            Some(earliest) => if earliest == timestamp {
                match self.pop_front() {
                    Some((message, _)) => Some(message),
                    None => None,
                }
            } else {
                None
            },
            None => None,
        }
    }
}

/// Messages are received in the order in which they were sent, at times that do not go back, and
/// none before it was due.
pub proof fn sending_keeps_the_order<V>(messages: Seq<(V, i64)>, message: V, timestamp: i64)
    requires
        in_time_order(messages),
    ensures
        in_time_order(sent(messages, message, timestamp)),
        sent(messages, message, timestamp).len() == messages.len() + 1,
        sent(messages, message, timestamp).drop_last() == messages,
        sent(messages, message, timestamp).last().0 == message,
        sent(messages, message, timestamp).last().1 >= timestamp,
{
    let after = sent(messages, message, timestamp);
    assert(after.drop_last() =~= messages);
    assert forall|i: int, j: int| 0 <= i < j < after.len() implies (#[trigger] after[i]).1 <= (
    #[trigger] after[j]).1 by {
        if j < messages.len() {
            assert(messages[i].1 <= messages[j].1);
        } else if i < messages.len() - 1 {
            assert(messages[i].1 <= messages[messages.len() - 1].1);
        }
    }
}

/// The buses of both directions between the exchange and the local side.
#[derive(Debug)]
pub struct OrderLink<Q, R> {
    /// The requests on their way to the exchange.
    pub to_exch: OrderBus<Q>,
    /// The responses on their way to the local side.
    pub to_local: OrderBus<R>,
}

impl<Q: View, R: View> OrderLink<Q, R> {
    /// Whether both buses are in order.
    pub open spec fn wf(&self) -> bool {
        self.to_exch.wf() && self.to_local.wf()
    }

    /// Copies the messages that are under way in both directions.
    pub fn snapshot(&self) -> (r: OrderLink<Q, R>) where Q: Message, R: Message
        ensures
            r.to_exch@ == self.to_exch@,
            r.to_local@ == self.to_local@,
    {
        OrderLink { to_exch: self.to_exch.snapshot(), to_local: self.to_local.snapshot() }
    }

    /// Two empty buses.
    pub fn new() -> (r: OrderLink<Q, R>)
        ensures
            r.wf(),
            r.to_exch@ == Seq::<(Q::V, i64)>::empty(),
            r.to_local@ == Seq::<(R::V, i64)>::empty(),
    {
        OrderLink { to_exch: OrderBus::new(), to_local: OrderBus::new() }
    }
}

/// The time of a message and its latency, where it is a time.
pub open spec fn arrival(timestamp: i64, latency: i64) -> Result<i64, BacktestError> {
    if latency < 0 {
        Err(BacktestError::NegativeLatency)
    } else if timestamp + latency > i64::MAX {
        Err(BacktestError::Overflow)
    } else {
        Ok((timestamp + latency) as i64)
    }
}

/// Adds a latency to the time of a message.
fn add_latency(timestamp: i64, latency: i64) -> (r: Result<i64, BacktestError>)
    ensures
        r == arrival(timestamp, latency),
{
    if latency < 0 {
        return Err(BacktestError::NegativeLatency);
    }
    match timestamp.checked_add(latency) {
        Some(received) => Ok(received),
        None => Err(BacktestError::Overflow),
    }
}

/// Exchange-side endpoint of the buses.
#[derive(Debug)]
pub struct ExchToLocal<LM> {
    /// The latency model.
    pub order_latency: LM,
}

/// What sending a response at `timestamp` leaves: the latency model and the messages.
pub open spec fn responded<Q: View, R: View, LM: LatencyModel<Q, R>>(
    latency: LM,
    messages: Seq<(R::V, i64)>,
    update: R::V,
    timestamp: i64,
) -> Result<(LM, Seq<(R::V, i64)>), BacktestError> {
    match arrival(timestamp, latency.response_latency(timestamp, update)) {
        Err(error) => Err(error),
        Ok(received) => Ok(
            (latency.after_response(timestamp, update), sent(messages, update, received)),
        ),
    }
}

/// What delivering a response at `timestamp` leaves: the latency model and the messages. A latency
/// may be negative: the response is still not received before the one in front of it.
pub open spec fn delivered<Q: View, R: View, LM: LatencyModel<Q, R>>(
    latency: LM,
    messages: Seq<(R::V, i64)>,
    update: R::V,
    timestamp: i64,
) -> Result<(LM, Seq<(R::V, i64)>), BacktestError> {
    let received = timestamp + latency.response_latency(timestamp, update);
    if i64::MIN <= received <= i64::MAX {
        Ok(
            (
                latency.after_response(timestamp, update),
                sent(messages, update, received as i64),
            ),
        )
    } else {
        Err(BacktestError::Overflow)
    }
}

impl<LM> ExchToLocal<LM> {
    /// Returns the timestamp of the earliest request to be received by the exchange.
    pub fn earliest_recv_order_timestamp<Q: View, R: View>(&self, link: &OrderLink<Q, R>) -> (r:
        Option<i64>)
        ensures
            r == (if link.to_exch@.len() == 0 {
                None
            } else {
                Some(link.to_exch@[0].1)
            }),
    {
        link.to_exch.earliest_timestamp()
    }

    /// Returns the timestamp of the earliest response sent to the local side.
    pub fn earliest_send_order_timestamp<Q: View, R: View>(&self, link: &OrderLink<Q, R>) -> (r:
        Option<i64>)
        ensures
            r == (if link.to_local@.len() == 0 {
                None
            } else {
                Some(link.to_local@[0].1)
            }),
    {
        link.to_local.earliest_timestamp()
    }

    /// Responds to the local side at `timestamp`. Where the latency is negative or the time of
    /// receipt cannot be held, nothing is sent.
    pub fn respond<Q: View, R: View>(
        &mut self,
        link: &mut OrderLink<Q, R>,
        update: R,
        timestamp: i64,
    ) -> (r: Result<(), BacktestError>) where LM: LatencyModel<Q, R>
        requires
            old(link).wf(),
        ensures
            final(link).wf(),
            final(link).to_exch@ == old(link).to_exch@,
            match responded::<Q, R, LM>(
                old(self).order_latency,
                old(link).to_local@,
                update@,
                timestamp,
            ) {
                Ok(after) => r is Ok && final(self).order_latency == after.0
                    && final(link).to_local@ == after.1,
                Err(error) => r == Err::<(), BacktestError>(error) && final(link).to_local@ == old(
                    link,
                ).to_local@,
            },
    {
        let latency: i64 = self.order_latency.response(timestamp, &update);
        match add_latency(timestamp, latency) {
            Ok(received) => {
                link.to_local.append(update, received);
                Ok(())
            },
            Err(error) => Err(error),
        }
    }

    /// Delivers a response to the local side at `timestamp`, whatever the sign of the latency. Where
    /// the time of receipt cannot be held, nothing is sent.
    pub fn deliver<Q: View, R: View>(
        &mut self,
        link: &mut OrderLink<Q, R>,
        update: R,
        timestamp: i64,
    ) -> (r: Result<(), BacktestError>) where LM: LatencyModel<Q, R>
        requires
            old(link).wf(),
        ensures
            final(link).wf(),
            final(link).to_exch@ == old(link).to_exch@,
            match delivered::<Q, R, LM>(
                old(self).order_latency,
                old(link).to_local@,
                update@,
                timestamp,
            ) {
                Ok(after) => r is Ok && final(self).order_latency == after.0
                    && final(link).to_local@ == after.1,
                Err(error) => r == Err::<(), BacktestError>(error) && final(link).to_local@ == old(
                    link,
                ).to_local@,
            },
    {
        let latency: i64 = self.order_latency.response(timestamp, &update);
        match timestamp.checked_add(latency) {
            Some(received) => {
                link.to_local.append(update, received);
                Ok(())
            },
            None => Err(BacktestError::Overflow),
        }
    }

    /// Receives the request that is expected at `receipt_timestamp`.
    pub fn receive<Q: View, R: View>(&self, link: &mut OrderLink<Q, R>, receipt_timestamp: i64) -> (r:
        Option<Q>)
        requires
            old(link).wf(),
            nothing_overdue(old(link).to_exch@, receipt_timestamp),
        ensures
            final(link).wf(),
            nothing_overdue(final(link).to_exch@, receipt_timestamp),
            final(link).to_local@ == old(link).to_local@,
            match r {
                None => !is_due(old(link).to_exch@, receipt_timestamp) && final(link).to_exch@
                    == old(link).to_exch@,
                Some(request) => is_due(old(link).to_exch@, receipt_timestamp) && request@ == old(
                    link,
                ).to_exch@[0].0 && final(link).to_exch@ == old(link).to_exch@.skip(1),
            },
    {
        link.to_exch.receive(receipt_timestamp)
    }
}

/// Local-side endpoint of the buses.
#[derive(Debug)]
pub struct LocalToExch<LM> {
    /// The latency model.
    pub order_latency: LM,
}

/// What sending a request at `timestamp` leaves: the latency model and the messages.
pub open spec fn requested<Q: View, R: View, LM: LatencyModel<Q, R>>(
    latency: LM,
    messages: Seq<(Q::V, i64)>,
    request: Q::V,
    timestamp: i64,
) -> Result<(LM, Seq<(Q::V, i64)>), BacktestError> {
    match arrival(timestamp, latency.entry_latency(timestamp, request)) {
        Err(error) => Err(error),
        Ok(received) => Ok(
            (latency.after_entry(timestamp, request), sent(messages, request, received)),
        ),
    }
}

impl<LM> LocalToExch<LM> {
    /// Returns the timestamp of the earliest response to be received by the local side.
    pub fn earliest_recv_order_timestamp<Q: View, R: View>(&self, link: &OrderLink<Q, R>) -> (r:
        Option<i64>)
        ensures
            r == (if link.to_local@.len() == 0 {
                None
            } else {
                Some(link.to_local@[0].1)
            }),
    {
        link.to_local.earliest_timestamp()
    }

    /// Returns the timestamp of the earliest request sent to the exchange.
    pub fn earliest_send_order_timestamp<Q: View, R: View>(&self, link: &OrderLink<Q, R>) -> (r:
        Option<i64>)
        ensures
            r == (if link.to_exch@.len() == 0 {
                None
            } else {
                Some(link.to_exch@[0].1)
            }),
    {
        link.to_exch.earliest_timestamp()
    }

    /// Sends a request at `timestamp`. Where the latency is negative or the time of receipt cannot
    /// be held, nothing is sent.
    pub fn request<Q: View, R: View>(
        &mut self,
        link: &mut OrderLink<Q, R>,
        request: Q,
        timestamp: i64,
    ) -> (r: Result<(), BacktestError>) where LM: LatencyModel<Q, R>
        requires
            old(link).wf(),
        ensures
            final(link).wf(),
            final(link).to_local@ == old(link).to_local@,
            match requested::<Q, R, LM>(
                old(self).order_latency,
                old(link).to_exch@,
                request@,
                timestamp,
            ) {
                Ok(after) => r is Ok && final(self).order_latency == after.0
                    && final(link).to_exch@ == after.1,
                Err(error) => r == Err::<(), BacktestError>(error) && final(link).to_exch@ == old(
                    link,
                ).to_exch@,
            },
    {
        let latency: i64 = self.order_latency.entry(timestamp, &request);
        match add_latency(timestamp, latency) {
            Ok(received) => {
                link.to_exch.append(request, received);
                Ok(())
            },
            Err(error) => Err(error),
        }
    }

    /// Sends a request at `timestamp`. A negative latency says that the request is rejected before it
    /// reaches the exchange, and how long the rejection takes to be received: then `rejection` is
    /// put on its way to the local side instead. Where the time of receipt cannot be held, nothing
    /// is sent.
    pub fn request_or_reject<Q: View, R: View>(
        &mut self,
        link: &mut OrderLink<Q, R>,
        request: Q,
        rejection: R,
        timestamp: i64,
    ) -> (r: Result<(), BacktestError>) where LM: LatencyModel<Q, R>
        requires
            old(link).wf(),
        ensures
            final(link).wf(),
            final(self).order_latency == old(self).order_latency.after_entry(timestamp, request@),
            ({
                let latency = old(self).order_latency.entry_latency(timestamp, request@);
                let received = if latency < 0 {
                    timestamp - latency
                } else {
                    timestamp + latency
                };
                if received > i64::MAX {
                    &&& r == Err::<(), BacktestError>(BacktestError::Overflow)
                    &&& final(link).to_exch@ == old(link).to_exch@
                    &&& final(link).to_local@ == old(link).to_local@
                } else if latency < 0 {
                    &&& r is Ok
                    &&& final(link).to_exch@ == old(link).to_exch@
                    &&& final(link).to_local@ == sent(
                        old(link).to_local@,
                        rejection@,
                        received as i64,
                    )
                } else {
                    &&& r is Ok
                    &&& final(link).to_exch@ == sent(
                        old(link).to_exch@,
                        request@,
                        received as i64,
                    )
                    &&& final(link).to_local@ == old(link).to_local@
                }
            }),
    {
        let latency: i64 = self.order_latency.entry(timestamp, &request);
        if latency < 0 {
            match timestamp.checked_sub(latency) {
                Some(received) => {
                    link.to_local.append(rejection, received);
                    Ok(())
                },
                None => Err(BacktestError::Overflow),
            }
        } else {
            match timestamp.checked_add(latency) {
                Some(received) => {
                    link.to_exch.append(request, received);
                    Ok(())
                },
                None => Err(BacktestError::Overflow),
            }
        }
    }

    /// Receives the response that is expected at `receipt_timestamp`.
    pub fn receive<Q: View, R: View>(&self, link: &mut OrderLink<Q, R>, receipt_timestamp: i64) -> (r:
        Option<R>)
        requires
            old(link).wf(),
            nothing_overdue(old(link).to_local@, receipt_timestamp),
        ensures
            final(link).wf(),
            nothing_overdue(final(link).to_local@, receipt_timestamp),
            final(link).to_exch@ == old(link).to_exch@,
            match r {
                None => !is_due(old(link).to_local@, receipt_timestamp) && final(link).to_local@
                    == old(link).to_local@,
                Some(update) => is_due(old(link).to_local@, receipt_timestamp) && update@ == old(
                    link,
                ).to_local@[0].0 && final(link).to_local@ == old(link).to_local@.skip(1),
            },
    {
        link.to_local.receive(receipt_timestamp)
    }
}

/// Creates the buses of both directions and their endpoints.
pub fn order_bus<Q: View, R: View, LM: LatencyModel<Q, R> + Copy>(order_latency: LM) -> (r: (
    OrderLink<Q, R>,
    ExchToLocal<LM>,
    LocalToExch<LM>,
))
    ensures
        r.0.wf(),
        r.0.to_exch@ == Seq::<(Q::V, i64)>::empty(),
        r.0.to_local@ == Seq::<(R::V, i64)>::empty(),
        r.1.order_latency == order_latency,
        r.2.order_latency == order_latency,
{
    (OrderLink::new(), ExchToLocal { order_latency }, LocalToExch { order_latency })
}

/// A message is received at the time at which it is due, or with the one in front of it where that
/// comes later, and not before the start of time; never later than that.
pub proof fn messages_wait_only_for_those_in_front<V>(
    messages: Seq<(V, i64)>,
    message: V,
    timestamp: i64,
)
    ensures
        ({
            let received = sent(messages, message, timestamp).last().1;
            &&& messages.len() == 0 && timestamp >= 0 ==> received == timestamp
            &&& messages.len() > 0 && messages.last().1 <= timestamp ==> received == timestamp
            &&& messages.len() > 0 && messages.last().1 > timestamp ==> received
                == messages.last().1
        }),
{
}

/// A response takes the latency that the model gives for it: it is received that long after it was
/// sent, or with the response in front of it where that comes later. A negative latency, or a time
/// that cannot be held, is refused.
pub proof fn responses_take_their_latency<Q: View, R: View, LM: LatencyModel<Q, R>>(
    latency: LM,
    messages: Seq<(R::V, i64)>,
    update: R::V,
    timestamp: i64,
)
    requires
        timestamp >= 0,
    ensures
        ({
            let delay = latency.response_latency(timestamp, update);
            let r = responded::<Q, R, LM>(latency, messages, update, timestamp);
            &&& r is Ok <==> 0 <= delay <= i64::MAX - timestamp
            &&& delay < 0 ==> r == Err::<(LM, Seq<(R::V, i64)>), BacktestError>(
                BacktestError::NegativeLatency,
            )
            &&& delay > i64::MAX - timestamp ==> r == Err::<(LM, Seq<(R::V, i64)>), BacktestError>(
                BacktestError::Overflow,
            )
            &&& r matches Ok(after) ==> {
                &&& after.0 == latency.after_response(timestamp, update)
                &&& after.1.drop_last() =~= messages
                &&& after.1.last().0 == update
                &&& after.1.last().1 >= timestamp + delay
                &&& (messages.len() == 0 || messages.last().1 <= timestamp + delay)
                    ==> after.1.last().1 == timestamp + delay
            }
        }),
{
}

/// A response that is delivered whatever the sign of its latency takes that latency too.
pub proof fn deliveries_take_their_latency<Q: View, R: View, LM: LatencyModel<Q, R>>(
    latency: LM,
    messages: Seq<(R::V, i64)>,
    update: R::V,
    timestamp: i64,
)
    ensures
        ({
            let due = timestamp + latency.response_latency(timestamp, update);
            let r = delivered::<Q, R, LM>(latency, messages, update, timestamp);
            &&& r is Ok <==> i64::MIN <= due <= i64::MAX
            &&& r matches Err(error) ==> error == BacktestError::Overflow
            &&& r matches Ok(after) ==> {
                &&& after.0 == latency.after_response(timestamp, update)
                &&& after.1.drop_last() =~= messages
                &&& after.1.last().0 == update
                &&& after.1.last().1 >= due
                &&& messages.len() > 0 && messages.last().1 <= due ==> after.1.last().1 == due
                &&& messages.len() == 0 && due >= 0 ==> after.1.last().1 == due
            }
        }),
{
}

/// A request takes the latency that the model gives for it, as a response does.
pub proof fn requests_take_their_latency<Q: View, R: View, LM: LatencyModel<Q, R>>(
    latency: LM,
    messages: Seq<(Q::V, i64)>,
    request: Q::V,
    timestamp: i64,
)
    requires
        timestamp >= 0,
    ensures
        ({
            let delay = latency.entry_latency(timestamp, request);
            let r = requested::<Q, R, LM>(latency, messages, request, timestamp);
            &&& r is Ok <==> 0 <= delay <= i64::MAX - timestamp
            &&& delay < 0 ==> r == Err::<(LM, Seq<(Q::V, i64)>), BacktestError>(
                BacktestError::NegativeLatency,
            )
            &&& delay > i64::MAX - timestamp ==> r == Err::<(LM, Seq<(Q::V, i64)>), BacktestError>(
                BacktestError::Overflow,
            )
            &&& r matches Ok(after) ==> {
                &&& after.0 == latency.after_entry(timestamp, request)
                &&& after.1.drop_last() =~= messages
                &&& after.1.last().0 == request
                &&& after.1.last().1 >= timestamp + delay
                &&& (messages.len() == 0 || messages.last().1 <= timestamp + delay)
                    ==> after.1.last().1 == timestamp + delay
            }
        }),
{
}

} // verus!
