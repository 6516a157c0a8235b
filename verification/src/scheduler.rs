//! Walking a range of days with a bounded number of them in flight.
//!
//! The scheduler admits the days from the first to the last in the order of
//! the calendar. It starts with as many as its capacity allows, and admits
//! one more each time a day in flight is reported as resolved, however that
//! day ended. It decides and never runs a task itself.

use crate::calendar::lemma_day_number_bounds;
use crate::calendar::Day;
use crate::task::DayOutcome;
use vstd::prelude::*;

verus! {

/// What a [`DateRangeScheduler`] stands for. The days are taken by their
/// numbers; those admitted so far are `first`, `first + 1` and so on, up to
/// `first + admitted - 1`.
pub struct Schedule {
    /// The number of the first day of the range.
    pub first: int,
    /// The number of the last day of the range.
    pub last: int,
    /// The most days that may be in flight at once.
    pub capacity: nat,
    /// How many days were admitted.
    pub admitted: nat,
    /// How many of the admitted days are not resolved yet.
    pub in_flight: nat,
    /// How many of the admitted days are resolved.
    pub resolved: nat,
    /// How many of the resolved days ended as failed.
    pub failed: nat,
}

impl Schedule {
    /// The number of days in the range, both ends counted.
    pub open spec fn total(self) -> nat {
        if self.last >= self.first {
            (self.last - self.first + 1) as nat
        } else {
            0
        }
    }

    /// Every day of the range was admitted.
    pub open spec fn exhausted(self) -> bool {
        self.admitted >= self.total()
    }

    /// The number of the day that is admitted next.
    pub open spec fn next_number(self) -> int {
        self.first + self.admitted
    }

    /// What holds of every schedule that a scheduler reaches: no more days
    /// are in flight than the capacity allows, and as long as days are left
    /// to admit, as many as the capacity allows.
    pub open spec fn wf(self) -> bool {
        &&& self.admitted <= self.total()
        &&& self.in_flight <= self.capacity
        &&& self.in_flight + self.resolved == self.admitted
        &&& self.failed <= self.resolved
        &&& (self.in_flight == self.capacity || self.exhausted())
    }

    /// Nothing is in flight: the run is over.
    pub open spec fn drained(self) -> bool {
        self.in_flight == 0
    }
}

/// The schedule with which a run starts: the first days of the range are in
/// flight, as many as the capacity allows and the range has.
pub open spec fn seeded(first: int, last: int, capacity: nat) -> Schedule {
    let empty = Schedule { first, last, capacity, admitted: 0, in_flight: 0, resolved: 0, failed: 0 };
    let count = if capacity <= empty.total() {
        capacity
    } else {
        empty.total()
    };
    Schedule { admitted: count, in_flight: count, ..empty }
}

/// A day in flight is resolved. However it ended, its slot goes to the next
/// day of the range, if one is left, and is given up otherwise. The second
/// part of the result is the number of the day that is admitted. With
/// nothing in flight there is nothing to resolve.
pub open spec fn resolve(schedule: Schedule, outcome: DayOutcome) -> (Schedule, Option<int>) {
    if schedule.in_flight == 0 {
        (schedule, None)
    } else {
        let counted = Schedule {
            resolved: schedule.resolved + 1,
            failed: if outcome is Failed {
                schedule.failed + 1
            } else {
                schedule.failed
            },
            ..schedule
        };
        if schedule.exhausted() {
            (Schedule { in_flight: (schedule.in_flight - 1) as nat, ..counted }, None)
        } else {
            (Schedule { admitted: schedule.admitted + 1, ..counted }, Some(schedule.next_number()))
        }
    }
}

/// The schedule after the days in flight were resolved with `outcomes`, one
/// after the other.
pub open spec fn resolve_all(schedule: Schedule, outcomes: Seq<DayOutcome>) -> Schedule
    decreases outcomes.len(),
{
    if outcomes.len() == 0 {
        schedule
    } else {
        resolve_all(resolve(schedule, outcomes.first()).0, outcomes.drop_first())
    }
}

/// The scheduler of one run over the days from a first to a last one.
#[derive(Debug)]
pub struct DateRangeScheduler {
    start: Day,
    end: Day,
    capacity: usize,
    upcoming: Option<Day>,
    in_flight: usize,
    resolved: usize,
    failed: usize,
}

impl View for DateRangeScheduler {
    type V = Schedule;

    closed spec fn view(&self) -> Schedule {
        let range = Schedule {
            first: self.start.number(),
            last: self.end.number(),
            capacity: self.capacity as nat,
            admitted: 0,
            in_flight: self.in_flight as nat,
            resolved: self.resolved as nat,
            failed: self.failed as nat,
        };
        Schedule {
            admitted: match self.upcoming {
                Some(day) => (day.number() - self.start.number()) as nat,
                None => range.total(),
            },
            ..range
        }
    }
}

/// The day after `day` within a range that ends with `end`.
fn following_within(day: Day, end: Day) -> (next: Option<Day>)
    ensures
        next is Some <==> day.number() < end.number(),
        next matches Some(n) ==> n.number() == day.number() + 1,
{
    proof {
        use_type_invariant(day);
        use_type_invariant(end);
        lemma_day_number_bounds(day);
        lemma_day_number_bounds(end);
        crate::calendar::lemma_last_day_number(day);
    }
    if day.is_before(&end) {
        day.succ()
    } else {
        None
    }
}

impl DateRangeScheduler {
    #[verifier::type_invariant]
    closed spec fn inv(self) -> bool {
        &&& self.start.wf()
        &&& self.end.wf()
        &&& self.upcoming matches Some(day) ==> self.start.number() <= day.number()
            <= self.end.number()
        &&& self@.wf()
    }

    /// Starts a run over the days from `start` to `end`, both included, with
    /// at most `capacity` days in flight. Returns the scheduler and the days
    /// that are in flight from the start: the first of the range, in the
    /// order of the calendar.
    pub fn start(start: Day, end: Day, capacity: usize) -> (begun: (DateRangeScheduler, Vec<Day>))
        ensures
            begun.0@ == seeded(start.number(), end.number(), capacity as nat),
            begun.0@.wf(),
            begun.1@.len() == begun.0@.in_flight,
            forall|i: int| 0 <= i < begun.1@.len() ==> (#[trigger] begun.1@[i]).number()
                == start.number() + i,
    {
        proof {
            use_type_invariant(start);
            use_type_invariant(end);
            lemma_day_number_bounds(start);
            lemma_day_number_bounds(end);
        }
        let mut days: Vec<Day> = Vec::new();
        let mut upcoming = if start.is_on_or_before(&end) {
            Some(start)
        } else {
            None
        };
        let mut in_flight: usize = 0;
        while in_flight < capacity && upcoming.is_some()
            invariant
                start.wf(),
                end.wf(),
                in_flight <= capacity,
                days@.len() == in_flight,
                forall|i: int| 0 <= i < days@.len() ==> (#[trigger] days@[i]).number()
                    == start.number() + i,
                upcoming matches Some(day) ==> day.number() == start.number() + in_flight
                    && day.number() <= end.number(),
                upcoming is None ==> in_flight == (Schedule {
                    first: start.number(),
                    last: end.number(),
                    capacity: capacity as nat,
                    admitted: 0,
                    in_flight: 0,
                    resolved: 0,
                    failed: 0,
                }).total(),
            decreases capacity - in_flight,
        {
            let day = upcoming.unwrap();
            days.push(day);
            in_flight = in_flight + 1;
            upcoming = following_within(day, end);
        }
        let scheduler = DateRangeScheduler {
            start,
            end,
            capacity,
            upcoming,
            in_flight,
            resolved: 0,
            failed: 0,
        };
        (scheduler, days)
    }

    pub fn capacity(&self) -> (capacity: usize)
        ensures
            capacity == self@.capacity,
    {
        self.capacity
    }

    /// The number of days that are admitted and not resolved: never more
    /// than the capacity.
    pub fn in_flight(&self) -> (count: usize)
        ensures
            count == self@.in_flight,
            count <= self@.capacity,
            self@.wf(),
    {
        proof {
            use_type_invariant(self);
        }
        self.in_flight
    }

    /// The number of days that were resolved.
    pub fn resolved(&self) -> (count: usize)
        ensures
            count == self@.resolved,
    {
        self.resolved
    }

    /// The number of days that ended as failed.
    pub fn failed(&self) -> (count: usize)
        ensures
            count == self@.failed,
    {
        self.failed
    }

    /// Whether the run is over: nothing is in flight.
    pub fn is_drained(&self) -> (drained: bool)
        ensures
            drained == self@.drained(),
    {
        self.in_flight == 0
    }

    /// Reports that a day in flight is resolved, with the way its task
    /// ended. Returns the day that takes its slot, if the range has one
    /// left.
    pub fn on_completion(&mut self, outcome: DayOutcome) -> (admitted: Option<Day>)
        ensures
            final(self)@ == resolve(old(self)@, outcome).0,
            final(self)@.wf(),
            match resolve(old(self)@, outcome).1 {
                Some(number) => admitted matches Some(day) && day.number() == number,
                None => admitted is None,
            },
    {
        proof {
            use_type_invariant(&*self);
            lemma_day_number_bounds(self.start);
            lemma_day_number_bounds(self.end);
        }
        if self.in_flight == 0 {
            return None;
        }
        let failed = match outcome {
            DayOutcome::Failed(_) => self.failed + 1,
            _ => self.failed,
        };
        match self.upcoming {
            Some(day) => {
                let upcoming = following_within(day, self.end);
                *self = DateRangeScheduler {
                    start: self.start,
                    end: self.end,
                    capacity: self.capacity,
                    upcoming,
                    in_flight: self.in_flight,
                    resolved: self.resolved + 1,
                    failed,
                };
                Some(day)
            },
            None => {
                *self = DateRangeScheduler {
                    start: self.start,
                    end: self.end,
                    capacity: self.capacity,
                    upcoming: None,
                    in_flight: self.in_flight - 1,
                    resolved: self.resolved + 1,
                    failed,
                };
                None
            },
        }
    }
}

/// Resolving one more day at the end of a run is one more step.
pub proof fn lemma_resolve_all_push(schedule: Schedule, outcomes: Seq<DayOutcome>, last: DayOutcome)
    ensures
        resolve_all(schedule, outcomes.push(last)) == resolve(
            resolve_all(schedule, outcomes),
            last,
        ).0,
    decreases outcomes.len(),
{
    reveal_with_fuel(resolve_all, 2);
    let longer = outcomes.push(last);
    if outcomes.len() == 0 {
        assert(longer.first() == last);
        assert(longer.drop_first() =~= Seq::<DayOutcome>::empty());
    } else {
        assert(longer.first() == outcomes.first());
        assert(longer.drop_first() =~= outcomes.drop_first().push(last));
        lemma_resolve_all_push(
            resolve(schedule, outcomes.first()).0,
            outcomes.drop_first(),
            last,
        );
    }
}

/// Runs a backfill over the days from `start` to `end` with at most
/// `capacity` days in flight, for tasks whose ends are given: the day that is
/// resolved first ends with the first of `outcomes`, the next with the
/// second, and so on. Returns the scheduler as it stands after them, and the
/// days that were admitted, in the order of their admission: the days of the
/// range from its first on, none left out and none twice.
pub fn fetch_history(start: Day, end: Day, capacity: usize, outcomes: &Vec<DayOutcome>) -> (run: (
    DateRangeScheduler,
    Vec<Day>,
))
    ensures
        run.0@ == resolve_all(seeded(start.number(), end.number(), capacity as nat), outcomes@),
        run.0@.wf(),
        run.1@.len() == run.0@.admitted,
        forall|i: int| 0 <= i < run.1@.len() ==> (#[trigger] run.1@[i]).number() == start.number()
            + i,
{
    let ghost begun = seeded(start.number(), end.number(), capacity as nat);
    let (mut scheduler, mut admitted) = DateRangeScheduler::start(start, end, capacity);
    proof {
        assert(outcomes@.take(0) =~= Seq::<DayOutcome>::empty());
    }
    for i in 0..outcomes.len()
        invariant
            begun == seeded(start.number(), end.number(), capacity as nat),
            scheduler@ == resolve_all(begun, outcomes@.take(i as int)),
            scheduler@.wf(),
            scheduler@.first == start.number(),
            admitted@.len() == scheduler@.admitted,
            forall|k: int| 0 <= k < admitted@.len() ==> (#[trigger] admitted@[k]).number()
                == start.number() + k,
    {
        proof {
            assert(outcomes@.take(i + 1) =~= outcomes@.take(i as int).push(outcomes@[i as int]));
            lemma_resolve_all_push(begun, outcomes@.take(i as int), outcomes@[i as int]);
        }
        match scheduler.on_completion(outcomes[i]) {
            Some(day) => {
                admitted.push(day);
            },
            None => {},
        }
    }
    assert(outcomes@.take(outcomes@.len() as int) =~= outcomes@);
    (scheduler, admitted)
}

/// Concurrency bound: a run starts within its capacity, and resolving a day
/// keeps it there. While days are left, a resolved day's slot is taken at
/// once by the next day of the range, exactly one; when none is left the
/// number in flight goes down by one.
pub proof fn lemma_concurrency_bound(schedule: Schedule, outcome: DayOutcome)
    requires
        schedule.wf(),
    ensures
        schedule.in_flight <= schedule.capacity,
        resolve(schedule, outcome).0.wf(),
        resolve(schedule, outcome).0.in_flight <= schedule.capacity,
        schedule.in_flight > 0 && !schedule.exhausted() ==> {
            &&& resolve(schedule, outcome).1 == Some(schedule.next_number())
            &&& resolve(schedule, outcome).0.admitted == schedule.admitted + 1
            &&& resolve(schedule, outcome).0.in_flight == schedule.in_flight
        },
        schedule.in_flight > 0 && schedule.exhausted() ==> {
            &&& resolve(schedule, outcome).1 is None
            &&& resolve(schedule, outcome).0.admitted == schedule.admitted
            &&& resolve(schedule, outcome).0.in_flight == schedule.in_flight - 1
        },
{
}

/// The schedule with which a run starts is well formed, and holds the first
/// days of the range: as many as the capacity, or all if the range is
/// shorter.
pub proof fn lemma_seeded(first: int, last: int, capacity: nat)
    ensures
        seeded(first, last, capacity).wf(),
        seeded(first, last, capacity).in_flight <= capacity,
        seeded(first, last, capacity).in_flight == seeded(first, last, capacity).admitted,
        seeded(first, last, capacity).resolved == 0,
{
}

/// Cross-day isolation: which day is admitted next, and how many are in
/// flight, does not depend on how the resolved day ended. A day that failed
/// frees its slot as one that was written does.
pub proof fn lemma_failure_does_not_block(schedule: Schedule, one: DayOutcome, other: DayOutcome)
    ensures
        resolve(schedule, one).1 == resolve(schedule, other).1,
        resolve(schedule, one).0.admitted == resolve(schedule, other).0.admitted,
        resolve(schedule, one).0.in_flight == resolve(schedule, other).0.in_flight,
        resolve(schedule, one).0.resolved == resolve(schedule, other).0.resolved,
{
}

/// Chronological admission: two days that are admitted one after the other
/// follow each other in the calendar, so no day is admitted twice and none
/// is passed over.
pub proof fn lemma_admission_is_chronological(
    schedule: Schedule,
    one: DayOutcome,
    other: DayOutcome,
)
    ensures
        resolve(schedule, one).1 matches Some(earlier) ==> {
            &&& earlier == schedule.first + schedule.admitted
            &&& resolve(resolve(schedule, one).0, other).1 matches Some(later) ==> later == earlier
                + 1
        },
{
}

/// A run that has drained has admitted every day of its range, unless its
/// capacity is zero.
pub proof fn lemma_drained_run_is_complete(schedule: Schedule)
    requires
        schedule.wf(),
        schedule.drained(),
        schedule.capacity > 0,
    ensures
        schedule.admitted == schedule.total(),
        schedule.resolved == schedule.total(),
{
}

/// However the days end, a run with a capacity above zero drains when as
/// many days were resolved as the range has, and not before: by then every
/// day was admitted, in the order of the calendar, and resolved.
pub proof fn lemma_run_drains(schedule: Schedule, outcomes: Seq<DayOutcome>)
    requires
        schedule.wf(),
        schedule.capacity > 0,
        schedule.resolved + outcomes.len() <= schedule.total(),
    ensures
        resolve_all(schedule, outcomes).wf(),
        resolve_all(schedule, outcomes).resolved == schedule.resolved + outcomes.len(),
        resolve_all(schedule, outcomes).first == schedule.first,
        resolve_all(schedule, outcomes).last == schedule.last,
        resolve_all(schedule, outcomes).capacity == schedule.capacity,
        resolve_all(schedule, outcomes).drained() <==> schedule.resolved + outcomes.len()
            == schedule.total(),
    decreases outcomes.len(),
{
    if outcomes.len() > 0 {
        let next = resolve(schedule, outcomes.first()).0;
        lemma_concurrency_bound(schedule, outcomes.first());
        lemma_run_drains(next, outcomes.drop_first());
    }
}

} // verus!
