//! Fetching one day: a page at a time, with a bounded number of consecutive
//! retries, until a page comes back short.
//!
//! The module decides and never calls out. Its caller performs the request
//! that [`DayAccumulator::request`] describes and hands what came back to
//! [`DayAccumulator::on_outcome`], which says how the fetch goes on.

use crate::calendar::window_of;
use crate::calendar::Day;
use crate::calendar::SECONDS_PER_DAY;
use crate::cursor::cursor_after;
use crate::cursor::Cursor;
use crate::cursor::CursorView;
use crate::cursor::Strategy;
use crate::record::SwapsSwaps;
use vstd::prelude::*;

verus! {

/// The most events that one page holds. A page of this size says that more
/// may follow; a shorter one is the last of its day.
pub const PAGE_CAPACITY: usize = 100;

/// The number of consecutive failed attempts at one page after which the day
/// is given up.
pub const RETRY_BUDGET: u32 = 10;

/// Why an attempt at a page brought none. All of them are retried alike.
#[derive(Clone, Copy, Debug, PartialEq, Eq, Structural)]
pub enum TransientError {
    /// The request did not get through.
    Transport,
    /// The service answered with a status that is no success.
    Status,
    /// The answer held no data.
    MissingData,
}

/// What one attempt at a page brought.
#[derive(Clone, Debug, PartialEq, Eq)]
pub enum FetchOutcome {
    Page(Vec<SwapsSwaps>),
    Transient(TransientError),
}

/// What a [`FetchOutcome`] stands for: the page's events, or a failure.
pub enum Outcome {
    Page(Seq<SwapsSwaps>),
    Transient,
}

impl View for FetchOutcome {
    type V = Outcome;

    open spec fn view(&self) -> Outcome {
        match self {
            FetchOutcome::Page(page) => Outcome::Page(page@),
            FetchOutcome::Transient(_) => Outcome::Transient,
        }
    }
}

/// Why a day's task ended without an artifact.
#[derive(Clone, Copy, Debug, PartialEq, Eq, Structural)]
pub enum DayError {
    /// [`RETRY_BUDGET`] attempts at one page failed in a row.
    RetryBudgetExceeded,
    /// The artifact could not be written.
    FilesystemError,
}

/// The variables of one query: where to go on, and the window of timestamps,
/// from `start` up to and without `end`.
#[derive(Debug, PartialEq, Eq)]
pub struct Variables {
    pub cursor: Cursor,
    pub start: Option<i64>,
    pub end: Option<i64>,
}

/// What a [`Variables`] stands for.
pub struct Request {
    pub cursor: CursorView,
    pub start: Option<int>,
    pub end: Option<int>,
}

impl View for Variables {
    type V = Request;

    open spec fn view(&self) -> Request {
        Request {
            cursor: self.cursor@,
            start: match self.start {
                Some(seconds) => Some(seconds as int),
                None => None,
            },
            end: match self.end {
                Some(seconds) => Some(seconds as int),
                None => None,
            },
        }
    }
}

/// The query for the page at `cursor` among the events from `timestamp_gte`
/// up to, and without, `timestamp_lt`.
pub fn swaps(cursor: Cursor, timestamp_gte: Option<i64>, timestamp_lt: Option<i64>) -> (request:
    Variables)
    ensures
        request.cursor == cursor,
        request.start == timestamp_gte,
        request.end == timestamp_lt,
{
    Variables { cursor, start: timestamp_gte, end: timestamp_lt }
}

/// The state of a day's fetch: what was read so far and how many attempts
/// have failed since the last page arrived.
pub struct FetchState {
    pub day: Day,
    pub strategy: Strategy,
    pub seen: Seq<SwapsSwaps>,
    pub failures: nat,
}

/// How a day's fetch stands after an attempt.
pub enum Progress {
    /// Another request is due.
    Pending(FetchState),
    /// The last page has arrived: the day's events, in the order of arrival.
    Complete { day: Day, records: Seq<SwapsSwaps> },
    /// The day is given up; what was read of it is dropped.
    Failed(DayError),
}

/// A page that leaves room for more pages behind it.
pub open spec fn is_full(page: Seq<SwapsSwaps>) -> bool {
    page.len() >= PAGE_CAPACITY
}

/// The state in which a day's fetch starts.
pub open spec fn initial(day: Day, strategy: Strategy) -> FetchState {
    FetchState { day, strategy, seen: Seq::empty(), failures: 0 }
}

/// The cursor of the request that is due in `state`.
pub open spec fn cursor_due(state: FetchState) -> CursorView {
    cursor_after(state.strategy, state.seen)
}

/// The request that is due in `state`: it goes on behind what was read,
/// within the window of the day.
pub open spec fn request_due(state: FetchState) -> Request {
    Request {
        cursor: cursor_due(state),
        start: Some(SECONDS_PER_DAY * state.day.number()),
        end: Some(SECONDS_PER_DAY * (state.day.number() + 1)),
    }
}

/// One attempt. A page is appended and clears the count of failures; a full
/// one asks for the next, a short one completes the day. A failure counts,
/// and the one that spends the budget fails the day.
pub open spec fn step(state: FetchState, outcome: Outcome) -> Progress {
    match outcome {
        Outcome::Page(page) => if is_full(page) {
            Progress::Pending(FetchState { seen: state.seen + page, failures: 0, ..state })
        } else {
            Progress::Complete { day: state.day, records: state.seen + page }
        },
        Outcome::Transient => if state.failures + 1 >= RETRY_BUDGET {
            Progress::Failed(DayError::RetryBudgetExceeded)
        } else {
            Progress::Pending(FetchState { failures: state.failures + 1, ..state })
        },
    }
}

/// The attempts of `outcomes` one after the other, up to the one that ends
/// the fetch.
pub open spec fn run(state: FetchState, outcomes: Seq<Outcome>) -> Progress
    decreases outcomes.len(),
{
    if outcomes.len() == 0 {
        Progress::Pending(state)
    } else {
        match step(state, outcomes.first()) {
            Progress::Pending(next) => run(next, outcomes.drop_first()),
            done => done,
        }
    }
}

/// The number of requests that [`run`] makes: one for each outcome, up to
/// the one that ends the fetch.
pub open spec fn calls(state: FetchState, outcomes: Seq<Outcome>) -> nat
    decreases outcomes.len(),
{
    if outcomes.len() == 0 {
        0
    } else {
        match step(state, outcomes.first()) {
            Progress::Pending(next) => 1 + calls(next, outcomes.drop_first()),
            _ => 1,
        }
    }
}

/// The retry policy around the attempts at one page.
#[derive(Debug, PartialEq, Eq)]
pub struct PageFetcher {
    failures: u32,
}

/// What the policy makes of an attempt.
#[derive(Debug, PartialEq, Eq)]
pub enum PageStep {
    /// The page has arrived; the count of failures is cleared.
    Delivered(Vec<SwapsSwaps>, PageFetcher),
    /// The attempt failed and is to be made again, at once.
    Retry(PageFetcher),
    /// The attempt failed and spent the budget.
    RetryBudgetExceeded,
}

impl PageFetcher {
    /// The attempts that have failed since the last page arrived.
    pub closed spec fn spec_failures(self) -> nat {
        self.failures as nat
    }

    /// The budget is never spent while the policy lives.
    #[verifier::type_invariant]
    pub open spec fn wf(self) -> bool {
        self.spec_failures() < RETRY_BUDGET
    }

    pub fn new() -> (fetcher: PageFetcher)
        ensures
            fetcher.spec_failures() == 0,
    {
        PageFetcher { failures: 0 }
    }

    pub fn failures(&self) -> (failures: u32)
        ensures
            failures == self.spec_failures(),
            failures < RETRY_BUDGET,
    {
        proof {
            use_type_invariant(self);
        }
        self.failures
    }

    /// Takes what an attempt brought. A page is delivered as it is; a
    /// failure is counted, and the tenth in a row ends the policy.
    pub fn next_page(self, outcome: FetchOutcome) -> (step: PageStep)
        ensures
            match outcome {
                FetchOutcome::Page(page) => step matches PageStep::Delivered(delivered, fetcher)
                    && delivered == page && fetcher.spec_failures() == 0,
                FetchOutcome::Transient(_) => if self.spec_failures() + 1 >= RETRY_BUDGET {
                    step is RetryBudgetExceeded
                } else {
                    step matches PageStep::Retry(fetcher) && fetcher.spec_failures()
                        == self.spec_failures() + 1
                },
            },
    {
        proof {
            use_type_invariant(&self);
        }
        match outcome {
            FetchOutcome::Page(page) => PageStep::Delivered(page, PageFetcher { failures: 0 }),
            FetchOutcome::Transient(_) => {
                let failures = self.failures + 1;
                if failures >= RETRY_BUDGET {
                    PageStep::RetryBudgetExceeded
                } else {
                    PageStep::Retry(PageFetcher { failures })
                }
            },
        }
    }
}

/// The events of one day, complete and in the order of arrival.
#[derive(Debug, PartialEq, Eq)]
pub struct DayResult {
    pub day: Day,
    pub records: Vec<SwapsSwaps>,
}

/// A day's fetch between two attempts.
#[derive(Debug, PartialEq, Eq)]
pub struct DayAccumulator {
    day: Day,
    cursor: Cursor,
    records: Vec<SwapsSwaps>,
    fetcher: PageFetcher,
}

/// How a day's fetch goes on after an attempt.
#[derive(Debug, PartialEq, Eq)]
pub enum DayProgress {
    Pending(DayAccumulator),
    Complete(DayResult),
    Failed(DayError),
}

impl View for DayAccumulator {
    type V = FetchState;

    closed spec fn view(&self) -> FetchState {
        FetchState {
            day: self.day,
            strategy: Cursor::strategy_of(self.cursor@),
            seen: self.records@,
            failures: self.fetcher.spec_failures(),
        }
    }
}

impl View for DayProgress {
    type V = Progress;

    open spec fn view(&self) -> Progress {
        match self {
            DayProgress::Pending(accumulator) => Progress::Pending(accumulator@),
            DayProgress::Complete(result) => Progress::Complete {
                day: result.day,
                records: result.records@,
            },
            DayProgress::Failed(error) => Progress::Failed(*error),
        }
    }
}

impl DayAccumulator {
    /// The cursor stands behind what was read.
    #[verifier::type_invariant]
    closed spec fn wf(self) -> bool {
        self.cursor@ == cursor_after(Cursor::strategy_of(self.cursor@), self.records@)
    }

    /// Starts the fetch of `day`: nothing read, nothing failed.
    pub fn begin(day: Day, strategy: Strategy) -> (accumulator: DayAccumulator)
        ensures
            accumulator@ == initial(day, strategy),
    {
        DayAccumulator {
            day,
            cursor: Cursor::start(strategy),
            records: Vec::new(),
            fetcher: PageFetcher::new(),
        }
    }

    pub fn day(&self) -> (day: Day)
        ensures
            day == self@.day,
    {
        self.day
    }

    pub fn strategy(&self) -> (strategy: Strategy)
        ensures
            strategy == self@.strategy,
    {
        self.cursor.strategy()
    }

    /// The number of events read so far.
    pub fn len(&self) -> (count: usize)
        ensures
            count == self@.seen.len(),
    {
        self.records.len()
    }

    /// The attempts that have failed since the last page arrived.
    pub fn failures(&self) -> (failures: u32)
        ensures
            failures == self@.failures,
            failures < RETRY_BUDGET,
    {
        self.fetcher.failures()
    }

    /// The request that is due: it goes on behind what was read, with an
    /// offset at the count of the events so far, with identifiers at the
    /// last event of the last page, within the day's window.
    pub fn request(&self) -> (request: Variables)
        ensures
            request@ == request_due(self@),
    {
        proof {
            use_type_invariant(self);
        }
        let (start, end) = window_of(self.day);
        swaps(self.cursor.clone(), Some(start), Some(end))
    }

    /// Takes what the request brought and says how the fetch goes on.
    pub fn on_outcome(self, outcome: FetchOutcome) -> (progress: DayProgress)
        ensures
            progress@ == step(self@, outcome@),
    {
        proof {
            use_type_invariant(&self);
        }
        let DayAccumulator { day, cursor, records, fetcher } = self;
        let mut records = records;
        match fetcher.next_page(outcome) {
            PageStep::Delivered(page, fetcher) => {
                let mut page = page;
                let ghost arrived = page@;
                let ghost before = records@;
                let first: usize = records.len();
                let full = page.len() >= PAGE_CAPACITY;
                records.append(&mut page);
                if full {
                    let tail = vstd::slice::slice_subrange(records.as_slice(), first, records.len());
                    assert(tail@ =~= arrived);
                    let cursor = cursor.advance(tail);
                    proof {
                        crate::cursor::lemma_cursor_follows_pages(
                            Cursor::strategy_of(cursor@),
                            before,
                            arrived,
                        );
                    }
                    DayProgress::Pending(DayAccumulator { day, cursor, records, fetcher })
                } else {
                    DayProgress::Complete(DayResult { day, records })
                }
            },
            PageStep::Retry(fetcher) => DayProgress::Pending(
                DayAccumulator { day, cursor, records, fetcher },
            ),
            PageStep::RetryBudgetExceeded => DayProgress::Failed(DayError::RetryBudgetExceeded),
        }
    }
}

/// What the views of `outcomes` are, in their order.
pub open spec fn outcome_views(outcomes: Seq<FetchOutcome>) -> Seq<Outcome> {
    outcomes.map_values(|outcome: FetchOutcome| outcome@)
}

/// One more outcome at the end of a run is one more step, unless the run was
/// over before.
pub proof fn lemma_run_push(state: FetchState, outcomes: Seq<Outcome>, last: Outcome)
    ensures
        run(state, outcomes.push(last)) == match run(state, outcomes) {
            Progress::Pending(reached) => step(reached, last),
            done => done,
        },
        calls(state, outcomes.push(last)) == match run(state, outcomes) {
            Progress::Pending(reached) => calls(state, outcomes) + 1,
            done => calls(state, outcomes),
        },
    decreases outcomes.len(),
{
    reveal_with_fuel(run, 2);
    reveal_with_fuel(calls, 2);
    let longer = outcomes.push(last);
    if outcomes.len() == 0 {
        assert(longer.first() == last);
        assert(longer.drop_first() =~= Seq::<Outcome>::empty());
    } else {
        assert(longer.first() == outcomes.first());
        assert(longer.drop_first() =~= outcomes.drop_first().push(last));
        match step(state, outcomes.first()) {
            Progress::Pending(next) => {
                lemma_run_push(next, outcomes.drop_first(), last);
            },
            _ => {},
        }
    }
}

/// Fetches `day` from a source whose answers are given: the first request is
/// answered with the first of `outcomes`, the next with the second, and so
/// on until the fetch ends or the answers run out. Returns where the fetch
/// stands then, and the number of requests that were made.
pub fn fetch_day(day: Day, strategy: Strategy, outcomes: Vec<FetchOutcome>) -> (fetched: (
    DayProgress,
    usize,
))
    ensures
        fetched.0@ == run(initial(day, strategy), outcome_views(outcomes@)),
        fetched.1 == calls(initial(day, strategy), outcome_views(outcomes@)),
{
    let ghost all = outcomes@;
    let ghost start = initial(day, strategy);
    let mut progress = DayProgress::Pending(DayAccumulator::begin(day, strategy));
    let mut requests: usize = 0;
    let total = outcomes.len();
    proof {
        assert(outcome_views(all.take(0)) =~= Seq::<Outcome>::empty());
    }
    for outcome in it: outcomes
        invariant
            all == it.seq(),
            all.len() == total,
            start == initial(day, strategy),
            progress@ == run(start, outcome_views(all.take(it.index() as int))),
            requests == calls(start, outcome_views(all.take(it.index() as int))),
            requests <= it.index(),
    {
        proof {
            let before = outcome_views(all.take(it.index() as int));
            assert(outcome_views(all.take(it.index() + 1)) =~= before.push(outcome@));
            lemma_run_push(start, before, outcome@);
        }
        match progress {
            DayProgress::Pending(accumulator) => {
                requests = requests + 1;
                progress = accumulator.on_outcome(outcome);
            },
            done => {
                progress = done;
            },
        }
    }
    assert(all.take(all.len() as int) =~= all);
    (progress, requests)
}

/// `count` failed attempts in a row.
pub open spec fn failures_in_a_row(count: nat) -> Seq<Outcome> {
    Seq::new(count, |i: int| Outcome::Transient)
}

/// The outcomes of a source that answers each request with the next of
/// `pages`.
pub open spec fn pages_in_turn(pages: Seq<Seq<SwapsSwaps>>) -> Seq<Outcome> {
    pages.map_values(|page: Seq<SwapsSwaps>| Outcome::Page(page))
}

/// Exhaustion: when a source answers with full pages and then a short one,
/// the fetch completes with all their events in the order of arrival, after
/// one request for each page and no more.
pub proof fn lemma_exhaustion(state: FetchState, pages: Seq<Seq<SwapsSwaps>>)
    requires
        pages.len() > 0,
        forall|i: int| 0 <= i < pages.len() - 1 ==> is_full(#[trigger] pages[i]),
        !is_full(pages.last()),
    ensures
        run(state, pages_in_turn(pages)) == (Progress::Complete {
            day: state.day,
            records: state.seen + pages.flatten(),
        }),
        calls(state, pages_in_turn(pages)) == pages.len(),
    decreases pages.len(),
{
    let outcomes = pages_in_turn(pages);
    let rest = pages.drop_first();
    assert(outcomes.first() == Outcome::Page(pages.first()));
    assert(outcomes.drop_first() =~= pages_in_turn(rest));
    assert(pages.flatten() == pages.first() + rest.flatten());
    if pages.len() == 1 {
        assert(pages.first() == pages.last());
        assert(rest.flatten() =~= Seq::<SwapsSwaps>::empty());
        assert(state.seen + pages.flatten() =~= state.seen + pages.first());
    } else {
        assert(is_full(pages[0]));
        let next = FetchState { seen: state.seen + pages.first(), failures: 0, ..state };
        assert(step(state, outcomes.first()) == Progress::Pending(next));
        assert(rest.last() == pages.last());
        assert forall|i: int| 0 <= i < rest.len() - 1 implies is_full(#[trigger] rest[i]) by {
            assert(rest[i] == pages[i + 1]);
        }
        lemma_exhaustion(next, rest);
        assert(next.seen + rest.flatten() =~= state.seen + pages.flatten());
    }
}

/// Failures short of the budget are masked: they change nothing but the
/// count, one request each.
pub proof fn lemma_failures_are_counted(state: FetchState, count: nat)
    requires
        state.failures + count < RETRY_BUDGET,
    ensures
        run(state, failures_in_a_row(count)) == Progress::Pending(
            FetchState { failures: state.failures + count, ..state },
        ),
        calls(state, failures_in_a_row(count)) == count,
    decreases count,
{
    let outcomes = failures_in_a_row(count);
    if count > 0 {
        let next = FetchState { failures: state.failures + 1, ..state };
        assert(outcomes.first() == Outcome::Transient);
        assert(outcomes.drop_first() =~= failures_in_a_row((count - 1) as nat));
        lemma_failures_are_counted(next, (count - 1) as nat);
    }
}

/// Retry isolation: after any number of failures short of the budget, a page
/// is taken as if nothing had failed, and the count of failures is cleared.
pub proof fn lemma_page_after_failures(state: FetchState, count: nat, page: Seq<SwapsSwaps>)
    requires
        state.failures + count < RETRY_BUDGET,
    ensures
        run(state, failures_in_a_row(count).push(Outcome::Page(page))) == step(
            FetchState { failures: 0, ..state },
            Outcome::Page(page),
        ),
        calls(state, failures_in_a_row(count).push(Outcome::Page(page))) == count + 1,
        step(state, Outcome::Page(page)) matches Progress::Pending(next) ==> next.failures == 0,
    decreases count,
{
    let outcomes = failures_in_a_row(count).push(Outcome::Page(page));
    if count == 0 {
        reveal_with_fuel(run, 2);
        reveal_with_fuel(calls, 2);
        assert(outcomes.first() == Outcome::Page(page));
        assert(outcomes.drop_first() =~= Seq::<Outcome>::empty());
    } else {
        let next = FetchState { failures: state.failures + 1, ..state };
        assert(outcomes.first() == Outcome::Transient);
        assert(outcomes.drop_first() =~= failures_in_a_row((count - 1) as nat).push(
            Outcome::Page(page),
        ));
        lemma_page_after_failures(next, (count - 1) as nat, page);
    }
}

/// The budget: when as many attempts fail in a row as the budget has left,
/// the day fails with [`DayError::RetryBudgetExceeded`], whatever was read
/// before; for a fetch without failures so far that is the tenth attempt.
pub proof fn lemma_budget_exceeded(state: FetchState)
    requires
        state.failures < RETRY_BUDGET,
    ensures
        run(state, failures_in_a_row((RETRY_BUDGET - state.failures) as nat)) == Progress::Failed(
            DayError::RetryBudgetExceeded,
        ),
        calls(state, failures_in_a_row((RETRY_BUDGET - state.failures) as nat)) == RETRY_BUDGET
            - state.failures,
    decreases RETRY_BUDGET - state.failures,
{
    let count = (RETRY_BUDGET - state.failures) as nat;
    let outcomes = failures_in_a_row(count);
    assert(outcomes.first() == Outcome::Transient);
    if state.failures + 1 < RETRY_BUDGET {
        let next = FetchState { failures: state.failures + 1, ..state };
        assert(outcomes.drop_first() =~= failures_in_a_row((count - 1) as nat));
        lemma_budget_exceeded(next);
    }
}

/// Cursor monotonicity: after a full page the request that is due goes on
/// behind that page. With offsets it skips the count of all events so far;
/// with identifiers it asks for what follows the page's last event.
pub proof fn lemma_cursor_monotone(state: FetchState, page: Seq<SwapsSwaps>)
    requires
        is_full(page),
    ensures
        step(state, Outcome::Page(page)) matches Progress::Pending(next) && cursor_due(next)
            == crate::cursor::advanced(cursor_due(state), page) && match state.strategy {
            Strategy::Offset => cursor_due(next) == CursorView::Offset(
                state.seen.len() + page.len(),
            ),
            Strategy::LastId => cursor_due(next) == CursorView::LastId(page.last().id@),
        },
{
    crate::cursor::lemma_cursor_follows_pages(state.strategy, state.seen, page);
}

/// A failed attempt leaves the cursor where it is: the same request is made
/// again.
pub proof fn lemma_retry_repeats_request(state: FetchState)
    ensures
        step(state, Outcome::Transient) matches Progress::Pending(next) ==> cursor_due(next)
            == cursor_due(state) && next.day == state.day && next.seen == state.seen,
{
}

} // verus!
