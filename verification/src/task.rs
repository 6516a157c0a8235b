//! The task of one day: look whether its artifact is there, fetch the day if
//! it is not, write the artifact once the day is complete.
//!
//! A task decides and never acts. It names the action that is due; its
//! caller performs the action and reports what happened as an event.

use crate::artifact::compressed_text;
use crate::artifact::directory_text;
use crate::artifact::filename_text;
use crate::artifact::temporary_text;
use crate::artifact::temporary_variant;
use crate::artifact::ArtifactProbe;
use crate::artifact::ArtifactStore;
use crate::calendar::Day;
use crate::cursor::Strategy;
use crate::fetch::initial;
use crate::fetch::request_due;
use crate::fetch::step;
use crate::fetch::DayAccumulator;
use crate::fetch::DayError;
use crate::fetch::DayProgress;
use crate::fetch::FetchOutcome;
use crate::fetch::FetchState;
use crate::fetch::Outcome;
use crate::fetch::Progress;
use crate::fetch::Request;
use crate::fetch::Variables;
use crate::record::flatten_results;
use crate::record::flattened;
use crate::record::FlatRecord;
use crate::record::SwapsSwaps;
use vstd::prelude::*;

verus! {

/// How the task of a day ended.
#[derive(Clone, Copy, Debug, PartialEq, Eq, Structural)]
pub enum DayOutcome {
    /// The artifact was there already; nothing was fetched.
    AlreadyPresent,
    /// The day was fetched in full and its artifact written.
    Written,
    /// The day has no artifact; a later run will try it again.
    Failed(DayError),
}

/// What to write for a complete day, and where: the rows go to `temporary`
/// under `directory`, which is made if it is missing, and the finished file
/// is moved to `path`.
#[derive(Debug, PartialEq, Eq)]
pub struct WritePlan {
    pub directory: String,
    pub temporary: String,
    pub path: String,
    pub rows: Vec<FlatRecord>,
}

/// What a task asks of its caller.
#[derive(Debug, PartialEq, Eq)]
pub enum TaskAction {
    /// Look which of the two paths are there.
    Probe(ArtifactProbe),
    /// Send the query.
    Fetch(Variables),
    /// Write the artifact.
    Write(WritePlan),
    /// The task is over.
    Finish(DayOutcome),
    /// The event was not the one that the task waits for; it changed nothing.
    Nothing,
}

/// What a task's caller reports.
#[derive(Debug, PartialEq, Eq)]
pub enum TaskEvent {
    /// Which of the two paths are there.
    Probed { primary: bool, compressed: bool },
    /// What the query brought.
    Fetched(FetchOutcome),
    /// Whether the artifact was written.
    Stored(bool),
}

/// What a [`TaskEvent`] stands for.
pub enum Event {
    Probed { primary: bool, compressed: bool },
    Fetched(Outcome),
    Stored(bool),
}

/// What a [`TaskAction`] stands for.
pub enum Action {
    Probe { primary: Seq<char>, compressed: Seq<char> },
    Fetch(Request),
    Write { directory: Seq<char>, temporary: Seq<char>, path: Seq<char>, rows: Seq<FlatRecord> },
    Finish(DayOutcome),
    Nothing,
}

/// Where a task stands.
pub enum Phase {
    /// It waits to hear whether the artifact is there.
    Probing(Strategy),
    /// It waits for a page.
    Fetching(FetchState),
    /// It waits for the artifact to be written.
    Writing,
    /// It is over.
    Finished(DayOutcome),
}

/// The state of a task: the store it writes to, its day, and its phase.
pub struct TaskState {
    pub source: Option<Seq<char>>,
    pub day: Day,
    pub phase: Phase,
}

impl View for TaskEvent {
    type V = Event;

    open spec fn view(&self) -> Event {
        match self {
            TaskEvent::Probed { primary, compressed } => Event::Probed {
                primary: *primary,
                compressed: *compressed,
            },
            TaskEvent::Fetched(outcome) => Event::Fetched(outcome@),
            TaskEvent::Stored(done) => Event::Stored(*done),
        }
    }
}

impl View for TaskAction {
    type V = Action;

    open spec fn view(&self) -> Action {
        match self {
            TaskAction::Probe(probe) => Action::Probe {
                primary: probe.primary@,
                compressed: probe.compressed@,
            },
            TaskAction::Fetch(request) => Action::Fetch(request@),
            TaskAction::Write(plan) => Action::Write {
                directory: plan.directory@,
                temporary: plan.temporary@,
                path: plan.path@,
                rows: plan.rows@,
            },
            TaskAction::Finish(outcome) => Action::Finish(*outcome),
            TaskAction::Nothing => Action::Nothing,
        }
    }
}

/// The state in which the task of `day` starts.
pub open spec fn task_start(source: Option<Seq<char>>, day: Day, strategy: Strategy) -> TaskState {
    TaskState { source, day, phase: Phase::Probing(strategy) }
}

/// The action with which a task starts: to look at the artifact's path and
/// at that of its compressed copy.
pub open spec fn probe_action(source: Option<Seq<char>>, day: Day) -> Action {
    Action::Probe {
        primary: filename_text(source, day),
        compressed: compressed_text(filename_text(source, day)),
    }
}

/// The action that writes a complete day: a row for each event, in the order
/// of arrival, to the day's path.
pub open spec fn write_action(source: Option<Seq<char>>, day: Day, records: Seq<SwapsSwaps>)
    -> Action {
    Action::Write {
        directory: directory_text(source, day),
        temporary: temporary_text(filename_text(source, day)),
        path: filename_text(source, day),
        rows: records.map_values(|swap: SwapsSwaps| flattened(swap)),
    }
}

/// The end of a task.
pub open spec fn finish(state: TaskState, outcome: DayOutcome) -> (TaskState, Action) {
    (TaskState { phase: Phase::Finished(outcome), ..state }, Action::Finish(outcome))
}

/// One step of a task. A day whose artifact is there, plain or compressed,
/// ends at once. Otherwise the day is fetched page by page; when it is
/// complete its rows are written, and when its retry budget is spent it ends
/// without a write. An event that the phase does not wait for changes
/// nothing.
pub open spec fn task_step(state: TaskState, event: Event) -> (TaskState, Action) {
    match (state.phase, event) {
        (Phase::Probing(strategy), Event::Probed { primary, compressed }) => if primary
            || compressed {
            finish(state, DayOutcome::AlreadyPresent)
        } else {
            let fetch = initial(state.day, strategy);
            (TaskState { phase: Phase::Fetching(fetch), ..state }, Action::Fetch(request_due(fetch)))
        },
        (Phase::Fetching(fetch), Event::Fetched(outcome)) => match step(fetch, outcome) {
            Progress::Pending(next) => (
                TaskState { phase: Phase::Fetching(next), ..state },
                Action::Fetch(request_due(next)),
            ),
            Progress::Complete { day, records } => (
                TaskState { phase: Phase::Writing, ..state },
                write_action(state.source, state.day, records),
            ),
            Progress::Failed(error) => finish(state, DayOutcome::Failed(error)),
        },
        (Phase::Writing, Event::Stored(done)) => finish(
            state,
            if done {
                DayOutcome::Written
            } else {
                DayOutcome::Failed(DayError::FilesystemError)
            },
        ),
        _ => (state, Action::Nothing),
    }
}

/// The actions that a task asks for as the events of `events` come in, one
/// for each event.
pub open spec fn actions_of(state: TaskState, events: Seq<Event>) -> Seq<Action>
    decreases events.len(),
{
    if events.len() == 0 {
        Seq::empty()
    } else {
        let (next, action) = task_step(state, events.first());
        seq![action] + actions_of(next, events.drop_first())
    }
}

#[derive(Debug)]
enum TaskPhase {
    Probing(Strategy),
    Fetching(DayAccumulator),
    Writing,
    Finished(DayOutcome),
}

/// The task of one day.
#[derive(Debug)]
pub struct DayTask {
    store: ArtifactStore,
    day: Day,
    phase: TaskPhase,
}

impl View for DayTask {
    type V = TaskState;

    closed spec fn view(&self) -> TaskState {
        TaskState {
            source: self.store@,
            day: self.day,
            phase: match self.phase {
                TaskPhase::Probing(strategy) => Phase::Probing(strategy),
                TaskPhase::Fetching(accumulator) => Phase::Fetching(accumulator@),
                TaskPhase::Writing => Phase::Writing,
                TaskPhase::Finished(outcome) => Phase::Finished(outcome),
            },
        }
    }
}

impl DayTask {
    /// Starts the task of `day`, and asks to look for its artifact.
    pub fn begin(store: ArtifactStore, day: Day, strategy: Strategy) -> (started: (
        DayTask,
        TaskAction,
    ))
        ensures
            started.0@ == task_start(store@, day, strategy),
            started.1@ == probe_action(store@, day),
    {
        let probe = store.probe(day);
        (DayTask { store, day, phase: TaskPhase::Probing(strategy) }, TaskAction::Probe(probe))
    }

    pub fn day(&self) -> (day: Day)
        ensures
            day == self@.day,
    {
        self.day
    }

    /// How the task ended, once it has.
    pub fn outcome(&self) -> (outcome: Option<DayOutcome>)
        ensures
            outcome == match self@.phase {
                Phase::Finished(ended) => Some(ended),
                _ => None,
            },
    {
        match &self.phase {
            TaskPhase::Finished(ended) => Some(*ended),
            _ => None,
        }
    }

    /// Takes an event and names the action that is due after it.
    pub fn advance(self, event: TaskEvent) -> (stepped: (DayTask, TaskAction))
        ensures
            (stepped.0@, stepped.1@) == task_step(self@, event@),
    {
        let DayTask { store, day, phase } = self;
        match (phase, event) {
            (TaskPhase::Probing(strategy), TaskEvent::Probed { primary, compressed }) => {
                if ArtifactStore::is_present(primary, compressed) {
                    let outcome = DayOutcome::AlreadyPresent;
                    (
                        DayTask { store, day, phase: TaskPhase::Finished(outcome) },
                        TaskAction::Finish(outcome),
                    )
                } else {
                    let accumulator = DayAccumulator::begin(day, strategy);
                    let request = accumulator.request();
                    (
                        DayTask { store, day, phase: TaskPhase::Fetching(accumulator) },
                        TaskAction::Fetch(request),
                    )
                }
            },
            (TaskPhase::Fetching(accumulator), TaskEvent::Fetched(outcome)) => {
                match accumulator.on_outcome(outcome) {
                    DayProgress::Pending(next) => {
                        let request = next.request();
                        (
                            DayTask { store, day, phase: TaskPhase::Fetching(next) },
                            TaskAction::Fetch(request),
                        )
                    },
                    DayProgress::Complete(result) => {
                        let path = store.get_filename_for(day);
                        let plan = WritePlan {
                            directory: store.directory_for(day),
                            temporary: temporary_variant(path.as_str()),
                            path,
                            rows: flatten_results(result.records),
                        };
                        (DayTask { store, day, phase: TaskPhase::Writing }, TaskAction::Write(plan))
                    },
                    DayProgress::Failed(error) => {
                        let outcome = DayOutcome::Failed(error);
                        (
                            DayTask { store, day, phase: TaskPhase::Finished(outcome) },
                            TaskAction::Finish(outcome),
                        )
                    },
                }
            },
            (TaskPhase::Writing, TaskEvent::Stored(done)) => {
                let outcome = if done {
                    DayOutcome::Written
                } else {
                    DayOutcome::Failed(DayError::FilesystemError)
                };
                (
                    DayTask { store, day, phase: TaskPhase::Finished(outcome) },
                    TaskAction::Finish(outcome),
                )
            },
            (phase, _) => (DayTask { store, day, phase }, TaskAction::Nothing),
        }
    }
}

/// Idempotent resume: a day whose artifact is there, plain or compressed,
/// ends with its first event, and whatever is reported to its task, the task
/// never asks for a request nor for a write.
pub proof fn lemma_present_day_is_skipped(
    source: Option<Seq<char>>,
    day: Day,
    strategy: Strategy,
    primary: bool,
    compressed: bool,
    later: Seq<Event>,
)
    requires
        primary || compressed,
    ensures
        task_step(task_start(source, day, strategy), Event::Probed { primary, compressed })
            == finish(task_start(source, day, strategy), DayOutcome::AlreadyPresent),
        ({
            let events = seq![Event::Probed { primary, compressed }] + later;
            let actions = actions_of(task_start(source, day, strategy), events);
            &&& actions.len() == events.len()
            &&& actions[0] == Action::Finish(DayOutcome::AlreadyPresent)
            &&& forall|i: int| 0 <= i < actions.len() ==> !(actions[i] is Fetch) && !(actions[i] is Write)
        }),
{
    let start = task_start(source, day, strategy);
    let events = seq![Event::Probed { primary, compressed }] + later;
    let (ended, first) = task_step(start, events.first());
    assert(events.drop_first() =~= later);
    lemma_finished_is_final(ended, later);
    let actions = actions_of(start, events);
    assert(actions == seq![first] + actions_of(ended, later));
    assert forall|i: int| 0 <= i < actions.len() implies !(actions[i] is Fetch) && !(
    actions[i] is Write) by {
        if i > 0 {
            assert(actions[i] == actions_of(ended, later)[i - 1]);
        }
    }
}

/// A task that is over stays as it is and asks for nothing more.
pub proof fn lemma_finished_is_final(state: TaskState, events: Seq<Event>)
    requires
        state.phase is Finished,
    ensures
        actions_of(state, events).len() == events.len(),
        forall|i: int| 0 <= i < events.len() ==> actions_of(state, events)[i] == Action::Nothing,
        forall|event: Event| #[trigger] task_step(state, event) == (state, Action::Nothing),
    decreases events.len(),
{
    if events.len() > 0 {
        let rest = events.drop_first();
        lemma_finished_is_final(state, rest);
        let actions = actions_of(state, events);
        assert(actions == seq![Action::Nothing] + actions_of(state, rest));
        assert forall|i: int| 0 <= i < events.len() implies actions[i] == Action::Nothing by {
            if i > 0 {
                assert(actions[i] == actions_of(state, rest)[i - 1]);
            }
        }
    }
}

/// All or nothing: a task asks for a write only when the page that completes
/// its day has arrived, and then for all events of the day, flattened, in
/// the order of arrival, at the day's own path.
pub proof fn lemma_write_needs_complete_day(state: TaskState, event: Event)
    ensures
        task_step(state, event).1 is Write ==> {
            &&& state.phase matches Phase::Fetching(fetch)
            &&& event matches Event::Fetched(outcome)
            &&& step(fetch, outcome) matches Progress::Complete { day, records }
            &&& task_step(state, event).1 == write_action(state.source, state.day, records)
            &&& outcome matches Outcome::Page(page)
            &&& records == fetch.seen + page
        },
{
}

/// A day whose retry budget is spent ends as failed, without a write, and
/// its task asks for nothing afterwards.
pub proof fn lemma_failed_day_writes_nothing(state: TaskState, outcome: Outcome, later: Seq<Event>)
    requires
        state.phase matches Phase::Fetching(fetch) && step(fetch, outcome) is Failed,
    ensures
        task_step(state, Event::Fetched(outcome)) == finish(
            state,
            DayOutcome::Failed(DayError::RetryBudgetExceeded),
        ),
        forall|i: int|
            0 <= i < later.len() ==> actions_of(task_step(state, Event::Fetched(outcome)).0, later)[i]
                == Action::Nothing,
{
    lemma_finished_is_final(task_step(state, Event::Fetched(outcome)).0, later);
}

} // verus!
