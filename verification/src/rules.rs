//! The price rules of an exchange.
use vstd::prelude::*;
use vstd::string::*;

use crate::decimal::Decimal;
use crate::text::append_number;
use crate::text::number_text;

verus! {

/// A tick size and the time from which it applies.
#[derive(Clone, Copy, Debug, PartialEq)]
pub struct TickSizeChange {
    /// The time from which the tick size applies.
    pub effective_from: i64,
    /// The tick size.
    pub tick_size: Decimal,
}

/// The tick sizes of an asset over time.
#[derive(Debug)]
pub struct TickSizeSchedule {
    changes: Vec<TickSizeChange>,
}

/// What is wrong with a schedule, or with a time that it is asked for.
#[derive(Clone, Copy, Debug, PartialEq, Eq, Structural)]
pub enum TickSizeError {
    /// There is no tick size.
    Empty,
    /// The tick size that applies from this time on is not positive.
    NonPositive(i64),
    /// The times are not strictly increasing.
    Unordered,
    /// No tick size applies yet.
    Uncovered {
        /// The time that was asked for.
        timestamp: i64,
        /// The time from which the first tick size applies.
        first: i64,
    },
}

/// The text of an integer.
pub open spec fn integer_text(n: int) -> Seq<char> {
    if n < 0 {
        "-"@ + number_text((-n) as nat)
    } else {
        number_text(n as nat)
    }
}

/// Appends an integer.
fn append_integer(text: &mut String, n: i64)
    ensures
        final(text)@ == old(text)@ + integer_text(n as int),
{
    if n < 0 {
        text.append("-");
        append_number(text, (-(n as i128)) as u128);
    } else {
        append_number(text, n as u128);
    }
    assert(text@ =~= old(text)@ + integer_text(n as int));
}

impl TickSizeError {
    /// The error in words.
    pub open spec fn words(&self) -> Seq<char> {
        match *self {
            TickSizeError::Empty => "tick size schedule is empty"@,
            TickSizeError::NonPositive(timestamp) => "tick size must be positive at timestamp "@
                + integer_text(timestamp as int),
            TickSizeError::Unordered => "tick size timestamps must be strictly increasing"@,
            TickSizeError::Uncovered { timestamp, first } => "no tick size rule covers timestamp "@
                + integer_text(timestamp as int) + "; first rule starts at "@ + integer_text(
                first as int,
            ),
        }
    }

    /// The error in words.
    pub fn message(&self) -> (r: String)
        ensures
            r@ == self.words(),
    {
        let mut text: String = String::new();
        match *self {
            TickSizeError::Empty => {
                text.append("tick size schedule is empty");
            },
            TickSizeError::NonPositive(timestamp) => {
                text.append("tick size must be positive at timestamp ");
                append_integer(&mut text, timestamp);
            },
            TickSizeError::Unordered => {
                text.append("tick size timestamps must be strictly increasing");
            },
            TickSizeError::Uncovered { timestamp, first } => {
                text.append("no tick size rule covers timestamp ");
                append_integer(&mut text, timestamp);
                text.append("; first rule starts at ");
                append_integer(&mut text, first);
            },
        }
        assert(text@ =~= self.words());
        text
    }
}

/// Whether the times are strictly increasing.
pub open spec fn times_increase(changes: Seq<TickSizeChange>) -> bool {
    forall|i: int, j: int|
        0 <= i < j < changes.len() ==> (#[trigger] changes[i]).effective_from < (
        #[trigger] changes[j]).effective_from
}

/// The first tick size that is not positive.
pub open spec fn first_non_positive(changes: Seq<TickSizeChange>) -> Option<i64>
    decreases changes.len(),
{
    if changes.len() == 0 {
        None
    } else {
        match first_non_positive(changes.drop_last()) {
            Some(timestamp) => Some(timestamp),
            None => if changes.last().tick_size@ <= 0 {
                Some(changes.last().effective_from)
            } else {
                None
            },
        }
    }
}

/// What is wrong with a schedule.
pub open spec fn schedule_fault(changes: Seq<TickSizeChange>) -> Option<TickSizeError> {
    if changes.len() == 0 {
        Some(TickSizeError::Empty)
    } else {
        match first_non_positive(changes) {
            Some(timestamp) => Some(TickSizeError::NonPositive(timestamp)),
            None => if times_increase(changes) {
                None
            } else {
                Some(TickSizeError::Unordered)
            },
        }
    }
}

/// How many changes have come into effect at a time.
pub open spec fn started(changes: Seq<TickSizeChange>, timestamp: i64) -> int
    decreases changes.len(),
{
    if changes.len() == 0 {
        0
    } else {
        started(changes.drop_last(), timestamp) + if changes.last().effective_from <= timestamp {
            1int
        } else {
            0int
        }
    }
}

/// The tick size at a time: that of the last change that has come into effect.
pub open spec fn tick_size_at(changes: Seq<TickSizeChange>, timestamp: i64) -> Result<
    Decimal,
    TickSizeError,
> {
    let n = started(changes, timestamp);
    if n == 0 {
        Err(TickSizeError::Uncovered { timestamp, first: changes[0].effective_from })
    } else {
        Ok(changes[n - 1].tick_size)
    }
}

/// The changes that have come into effect are the first ones.
proof fn lemma_started(changes: Seq<TickSizeChange>, timestamp: i64, n: int)
    requires
        0 <= n <= changes.len(),
        forall|i: int| 0 <= i < n ==> (#[trigger] changes[i]).effective_from <= timestamp,
        forall|i: int| n <= i < changes.len() ==> (#[trigger] changes[i]).effective_from > timestamp,
    ensures
        started(changes, timestamp) == n,
    decreases changes.len(),
{
    if changes.len() > 0 {
        let front = changes.drop_last();
        assert forall|i: int| 0 <= i < front.len() implies #[trigger] front[i] == changes[i] by {}
        lemma_started(
            front,
            timestamp,
            if n == changes.len() {
                n - 1
            } else {
                n
            },
        );
        assert(changes.last() == changes[changes.len() - 1]);
    }
}

/// A tick size that is not positive stays the first one.
proof fn lemma_first_non_positive(changes: Seq<TickSizeChange>, k: int)
    requires
        0 <= k <= changes.len(),
        first_non_positive(changes.take(k)) is Some,
    ensures
        first_non_positive(changes) == first_non_positive(changes.take(k)),
    decreases changes.len(),
{
    if k == changes.len() {
        assert(changes.take(k) =~= changes);
    } else {
        assert(changes.drop_last().take(k) =~= changes.take(k));
        lemma_first_non_positive(changes.drop_last(), k);
    }
}

impl View for TickSizeSchedule {
    type V = Seq<TickSizeChange>;

    closed spec fn view(&self) -> Seq<TickSizeChange> {
        self.changes@
    }
}

impl TickSizeSchedule {
    /// Whether the schedule is one that can be built.
    pub open spec fn wf(&self) -> bool {
        schedule_fault(self@) is None
    }

    /// Builds a schedule.
    pub fn new(changes: Vec<TickSizeChange>) -> (r: Result<TickSizeSchedule, TickSizeError>)
        ensures
            match r {
                Ok(schedule) => schedule_fault(changes@) is None && schedule@ == changes@
                    && schedule.wf(),
                Err(error) => schedule_fault(changes@) == Some(error),
            },
    {
        if changes.len() == 0 {
            return Err(TickSizeError::Empty);
        }
        let mut i: usize = 0;
        assert(changes@.take(0) =~= Seq::<TickSizeChange>::empty());
        while i < changes.len()
            invariant
                i <= changes@.len(),
                changes@.len() > 0,
                first_non_positive(changes@.take(i as int)) is None,
            decreases changes@.len() - i,
        {
            let change: TickSizeChange = changes[i];
            assert(changes@.take(i + 1).drop_last() =~= changes@.take(i as int));
            if !change.tick_size.is_positive() {
                proof {
                    lemma_first_non_positive(changes@, i + 1);
                }
                return Err(TickSizeError::NonPositive(change.effective_from));
            }
            i = i + 1;
        }
        assert(changes@.take(i as int) =~= changes@);
        let mut k: usize = 1;
        while k < changes.len()
            invariant
                1 <= k <= changes@.len(),
                first_non_positive(changes@) is None,
                forall|a: int, b: int|
                    0 <= a < b < k ==> (#[trigger] changes@[a]).effective_from < (
                    #[trigger] changes@[b]).effective_from,
            decreases changes@.len() - k,
        {
            if changes[k - 1].effective_from >= changes[k].effective_from {
                assert(!(changes@[k - 1].effective_from < changes@[k as int].effective_from));
                return Err(TickSizeError::Unordered);
            }
            assert forall|a: int, b: int| 0 <= a < b < k + 1 implies (
            #[trigger] changes@[a]).effective_from < (#[trigger] changes@[b]).effective_from by {
                if b == k && a < k - 1 {
                    assert(changes@[a].effective_from < changes@[k - 1].effective_from);
                }
            }
            k = k + 1;
        }
        Ok(TickSizeSchedule { changes })
    }

    /// Queries the exchange processing time; a change applies at its exact timestamp.
    pub fn at(&self, timestamp: i64) -> (r: Result<Decimal, TickSizeError>)
        requires
            self.wf(),
        ensures
            r == tick_size_at(self@, timestamp),
    {
        let mut low: usize = 0;
        let mut high: usize = self.changes.len();
        while low < high
            invariant
                self.wf(),
                low <= high <= self.changes@.len(),
                forall|i: int|
                    0 <= i < low ==> (#[trigger] self.changes@[i]).effective_from <= timestamp,
                forall|i: int|
                    high <= i < self.changes@.len() ==> (#[trigger] self.changes@[i]).effective_from
                        > timestamp,
            decreases high - low,
        {
            let middle: usize = low + (high - low) / 2;
            if self.changes[middle].effective_from <= timestamp {
                assert forall|i: int| 0 <= i <= middle implies (
                #[trigger] self.changes@[i]).effective_from <= timestamp by {
                    if i < middle {
                        assert(self@[i].effective_from < self@[middle as int].effective_from);
                    }
                }
                low = middle + 1;
            } else {
                assert forall|i: int| middle <= i < self.changes@.len() implies (
                #[trigger] self.changes@[i]).effective_from > timestamp by {
                    if i > middle {
                        assert(self@[middle as int].effective_from < self@[i].effective_from);
                    }
                }
                high = middle;
            }
        }
        proof {
            lemma_started(self.changes@, timestamp, low as int);
        }
        if low == 0 {
            return Err(
                TickSizeError::Uncovered { timestamp, first: self.changes[0].effective_from },
            );
        }
        Ok(self.changes[low - 1].tick_size)
    }

    /// Whether a price is a whole number of ticks at a time.
    pub fn accepts(&self, timestamp: i64, price: Decimal) -> (r: Result<bool, TickSizeError>)
        requires
            self.wf(),
        ensures
            r == price_accepted(self@, timestamp, price),
    {
        match self.at(timestamp) {
            Ok(tick_size) => Ok(price.is_multiple_of(tick_size)),
            Err(error) => Err(error),
        }
    }

    /// Copies the schedule.
    pub fn snapshot(&self) -> (r: TickSizeSchedule)
        ensures
            r@ == self@,
    {
        let mut changes: Vec<TickSizeChange> = Vec::new();
        let mut i: usize = 0;
        while i < self.changes.len()
            invariant
                i <= self.changes@.len(),
                changes@ =~= self.changes@.take(i as int),
            decreases self.changes@.len() - i,
        {
            changes.push(self.changes[i]);
            i = i + 1;
        }
        assert(changes@ =~= self.changes@);
        TickSizeSchedule { changes }
    }
}

/// Whether a price is a whole number of ticks at a time.
pub open spec fn price_accepted(
    changes: Seq<TickSizeChange>,
    timestamp: i64,
    price: Decimal,
) -> Result<bool, TickSizeError> {
    match tick_size_at(changes, timestamp) {
        Ok(tick_size) => Ok(tick_size@ != 0 && price@ % tick_size@ == 0),
        Err(error) => Err(error),
    }
}

/// A change applies from its exact time until the next one, and the last one does not expire.
pub proof fn change_applies_from_its_time_to_the_next(
    changes: Seq<TickSizeChange>,
    timestamp: i64,
    i: int,
)
    requires
        schedule_fault(changes) is None,
        0 <= i < changes.len(),
        changes[i].effective_from <= timestamp,
        i + 1 < changes.len() ==> timestamp < changes[i + 1].effective_from,
    ensures
        tick_size_at(changes, timestamp) == Ok::<Decimal, TickSizeError>(changes[i].tick_size),
{
    assert forall|k: int| 0 <= k < i + 1 implies (#[trigger] changes[k]).effective_from
        <= timestamp by {
        if k < i {
            assert(changes[k].effective_from < changes[i].effective_from);
        }
    }
    assert forall|k: int| i + 1 <= k < changes.len() implies (#[trigger] changes[k]).effective_from
        > timestamp by {
        if k > i + 1 {
            assert(changes[i + 1].effective_from < changes[k].effective_from);
        }
    }
    lemma_started(changes, timestamp, i + 1);
}

/// No tick size applies before the first change.
pub proof fn no_tick_size_before_the_first_change(changes: Seq<TickSizeChange>, timestamp: i64)
    requires
        schedule_fault(changes) is None,
        timestamp < changes[0].effective_from,
    ensures
        tick_size_at(changes, timestamp) == Err::<Decimal, TickSizeError>(
            TickSizeError::Uncovered { timestamp, first: changes[0].effective_from },
        ),
{
    assert forall|k: int| 0 <= k < changes.len() implies (#[trigger] changes[k]).effective_from
        > timestamp by {
        if k > 0 {
            assert(changes[0].effective_from < changes[k].effective_from);
        }
    }
    lemma_started(changes, timestamp, 0);
}

/// A schedule is in order exactly where it is not empty, every tick size is positive and the times
/// increase strictly. The first tick size that is not positive is reported before times that do not
/// increase.
pub proof fn schedules_are_positive_and_increasing(changes: Seq<TickSizeChange>, k: int)
    ensures
        schedule_fault(changes) is None <==> {
            &&& changes.len() > 0
            &&& forall|i: int| 0 <= i < changes.len() ==> (#[trigger] changes[i]).tick_size@ > 0
            &&& forall|i: int, j: int|
                0 <= i < j < changes.len() ==> (#[trigger] changes[i]).effective_from < (
                #[trigger] changes[j]).effective_from
        },
        changes.len() == 0 ==> schedule_fault(changes) == Some(TickSizeError::Empty),
        0 <= k < changes.len() && changes[k].tick_size@ <= 0 && (forall|i: int|
            0 <= i < k ==> (#[trigger] changes[i]).tick_size@ > 0) ==> schedule_fault(changes)
            == Some(TickSizeError::NonPositive(changes[k].effective_from)),
        changes.len() > 0 && (forall|i: int|
            0 <= i < changes.len() ==> (#[trigger] changes[i]).tick_size@ > 0) && schedule_fault(
            changes,
        ) is Some ==> schedule_fault(changes) == Some(TickSizeError::Unordered),
{
    lemma_all_positive(changes);
    if 0 <= k < changes.len() && changes[k].tick_size@ <= 0 && (forall|i: int|
        0 <= i < k ==> (#[trigger] changes[i]).tick_size@ > 0) {
        let front = changes.take(k);
        assert forall|i: int| 0 <= i < front.len() implies (#[trigger] front[i]).tick_size@ > 0 by {
            assert(front[i] == changes[i]);
        }
        lemma_all_positive(front);
        let both = changes.take(k + 1);
        assert(both.drop_last() =~= front);
        assert(both.last() == changes[k]);
        lemma_first_non_positive(changes, k + 1);
    }
}

/// There is no tick size that is not positive exactly where all are positive.
proof fn lemma_all_positive(changes: Seq<TickSizeChange>)
    ensures
        first_non_positive(changes) is None <==> forall|i: int|
            0 <= i < changes.len() ==> (#[trigger] changes[i]).tick_size@ > 0,
    decreases changes.len(),
{
    if changes.len() > 0 {
        let front = changes.drop_last();
        lemma_all_positive(front);
        let last = changes[changes.len() - 1];
        assert(last == changes.last());
        if first_non_positive(changes) is None {
            assert forall|i: int| 0 <= i < changes.len() implies (
            #[trigger] changes[i]).tick_size@ > 0 by {
                if i < front.len() {
                    assert(front[i] == changes[i]);
                }
            }
        }
        if forall|i: int| 0 <= i < changes.len() ==> (#[trigger] changes[i]).tick_size@ > 0 {
            assert forall|i: int| 0 <= i < front.len() implies (#[trigger] front[i]).tick_size@
                > 0 by {
                assert(front[i] == changes[i]);
            }
            assert(last.tick_size@ > 0);
        }
    }
}

/// A price is allowed exactly where it is a whole number of the ticks that apply at the time. So
/// zero always is, and with a price also the price one tick above it.
pub proof fn allowed_prices_are_whole_ticks(
    changes: Seq<TickSizeChange>,
    timestamp: i64,
    price: Decimal,
    tick_size: Decimal,
    count: int,
)
    requires
        tick_size_at(changes, timestamp) == Ok::<Decimal, TickSizeError>(tick_size),
        tick_size@ > 0,
    ensures
        price@ == count * tick_size@ ==> price_accepted(changes, timestamp, price) == Ok::<
            bool,
            TickSizeError,
        >(true),
        count * tick_size@ < price@ < (count + 1) * tick_size@ ==> price_accepted(
            changes,
            timestamp,
            price,
        ) == Ok::<bool, TickSizeError>(false),
{
    let t = tick_size@;
    if price@ == count * t {
        assert(count * t == t * count) by (nonlinear_arith);
        vstd::arithmetic::div_mod::lemma_mod_multiples_basic(count, t);
    }
    if count * t < price@ < (count + 1) * t {
        assert((count + 1) * t == count * t + t) by (nonlinear_arith);
        vstd::arithmetic::div_mod::lemma_fundamental_div_mod_converse_mod(
            price@,
            t,
            count,
            price@ - count * t,
        );
    }
}

} // verus!
