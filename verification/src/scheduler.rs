//! The scheduler loop's decisions: what to do on a tick, after a command has
//! run, after the registry was written, and on a request to shut down.

use vstd::prelude::*;
use crate::index::fails_at;
use crate::index::index_of;
use crate::index::lemma_index_holds_rules;
use crate::index::lemma_index_of_unique;
use crate::index::places;
use crate::index::positions;
use crate::index::ScheduleIndex;
use crate::index::Skipped;
use crate::index::unparsed;
use crate::rule::due_at;
use crate::rule::horizon;
use crate::rule::next_occurrence;
use crate::rule::record_run;
use crate::rule::recorded_run;
use crate::rule::parses;
use crate::storage::EventView;
use crate::storage::Storage;
use crate::storage::unique_slugs;
use crate::time::Timestamp;

verus! {

/// Seconds between two ticks of the loop.
pub const TICK_SECONDS: u64 = 10;

/// Whether the loop goes on or is about to end.
#[derive(Clone, Copy, Debug, PartialEq, Eq, Structural)]
pub enum LoopState {
    Running,
    ShuttingDown,
}

/// What the loop is busy with.
#[derive(Clone, Copy, Debug, PartialEq, Eq, Structural)]
enum Work {
    Idle,
    Running,
    Persisting,
}

/// What the loop is busy with, as plain values.
pub enum WorkView {
    /// Between two ticks.
    Idle,
    /// In the tick of the instant `now`, while the task at `at` runs.
    Running { now: int, at: int },
    /// At the end of a tick, while the registry is written.
    Persisting,
}

/// The scheduler's state, as plain values.
pub struct SchedulerView {
    pub events: Seq<EventView>,
    pub state: LoopState,
    pub work: WorkView,
}

/// What happened outside.
#[derive(Debug)]
pub enum Signal {
    /// The tick timer fired at `now`. `reloaded` is the registry as just read,
    /// or `None` where reading it failed.
    Tick { now: Timestamp, reloaded: Option<Storage> },
    /// The attempt to run the command handed out last is over, however it went.
    Finished,
    /// The attempt to write the registry is over, however it went.
    Persisted,
    /// Termination was requested.
    Shutdown,
}

/// A signal, as plain values.
pub enum SignalView {
    Tick { now: int, reloaded: Option<Seq<EventView>> },
    Finished,
    Persisted,
    Shutdown,
}

impl View for Signal {
    type V = SignalView;

    open spec fn view(&self) -> SignalView {
        match *self {
            Signal::Tick { now, reloaded } => SignalView::Tick {
                now: now@,
                reloaded: match reloaded {
                    Some(storage) => Some(storage@),
                    None => None,
                },
            },
            Signal::Finished => SignalView::Finished,
            Signal::Persisted => SignalView::Persisted,
            Signal::Shutdown => SignalView::Shutdown,
        }
    }
}

/// What the loop is to do next.
#[derive(Debug)]
pub enum Action {
    /// Run the command of the task at `index`, then signal `Finished`.
    Run { index: usize, slug: String, command: String },
    /// Write the registry, then signal `Persisted`.
    Persist,
    /// Wait for the next tick or for a request to shut down.
    Wait,
    /// Release the PID marker and leave.
    Exit,
    /// The signal came out of turn: go on with what was asked before.
    Continue,
}

/// An action, as plain values.
pub enum ActionView {
    Run { index: int, slug: Seq<char>, command: Seq<char> },
    Persist,
    Wait,
    Exit,
    Continue,
}

impl View for Action {
    type V = ActionView;

    open spec fn view(&self) -> ActionView {
        match *self {
            Action::Run { index, slug, command } => ActionView::Run {
                index: index as int,
                slug: slug@,
                command: command@,
            },
            Action::Persist => ActionView::Persist,
            Action::Wait => ActionView::Wait,
            Action::Exit => ActionView::Exit,
            Action::Continue => ActionView::Continue,
        }
    }
}

/// Whether the task at `at` is to run in the tick of `now`: it is active, the
/// index holds a rule for its slug, and by that rule it is due.
pub open spec fn due_task(events: Seq<EventView>, now: int, at: int) -> bool {
    let event = events[at];
    &&& event.active
    &&& index_of(events).dom().contains(event.slug)
    &&& due_at(index_of(events)[event.slug], event.last_run, now)
}

/// For each place whether its task is to run in the tick of `now`.
pub open spec fn due_marks(events: Seq<EventView>, now: int) -> Seq<bool> {
    Seq::new(events.len(), |at: int| due_task(events, now, at))
}

/// The first marked place at or after `from`.
pub open spec fn first_marked(marks: Seq<bool>, from: int) -> Option<int>
    decreases marks.len() - from,
{
    if from < 0 || from >= marks.len() {
        None
    } else if marks[from] {
        Some(from)
    } else {
        first_marked(marks, from + 1)
    }
}

/// The first place at or after `from` whose task is due.
pub open spec fn next_due(events: Seq<EventView>, now: int, from: int) -> Option<int> {
    first_marked(due_marks(events, now), from)
}

/// `event` after a run at `now`: its last run is `now`, or the one it had
/// where that is later.
pub open spec fn run_at(event: EventView, now: int) -> EventView {
    EventView { last_run: Some(recorded_run(event.last_run, now)), ..event }
}

/// `events` after every task at a marked place has run at `now`.
pub open spec fn with_runs(events: Seq<EventView>, marks: Seq<bool>, now: int) -> Seq<EventView> {
    Seq::new(
        events.len(),
        |at: int|
            if at < marks.len() && marks[at] {
                run_at(events[at], now)
            } else {
                events[at]
            },
    )
}

/// The registry at the end of the tick of `now`: every task that was due has
/// run at `now`.
pub open spec fn after_runs(events: Seq<EventView>, now: int) -> Seq<EventView> {
    with_runs(events, due_marks(events, now), now)
}

/// The first marked place at or after `from`, if there is one.
pub fn next_marked(marks: &Vec<bool>, from: usize) -> (r: Option<usize>)
    ensures
        match r {
            Some(at) => first_marked(marks@, from as int) == Some(at as int),
            None => first_marked(marks@, from as int).is_none(),
        },
{
    let mut i: usize = from;
    while i < marks.len()
        invariant
            from <= i,
            first_marked(marks@, from as int) == first_marked(marks@, i as int),
        decreases marks.len() - i,
    {
        if marks[i] {
            return Some(i);
        }
        i += 1;
    }
    None
}

/// Records a run at `now` for every task at a marked place: its last run
/// becomes `now`, unless it is later than `now` already.
pub fn record_runs(storage: &mut Storage, marks: &Vec<bool>, now: Timestamp)
    ensures
        final(storage)@ == with_runs(old(storage)@, marks@, now@),
{
    let ghost before = storage@;
    let ghost goal = with_runs(before, marks@, now@);
    let mut i: usize = 0;
    while i < storage.events.len() && i < marks.len()
        invariant
            i <= storage.events.len(),
            i <= marks.len(),
            storage@.len() == before.len(),
            goal == with_runs(before, marks@, now@),
            forall|at: int| 0 <= at < i ==> #[trigger] storage@[at] == goal[at],
            forall|at: int| i <= at < before.len() ==> #[trigger] storage@[at] == before[at],
        decreases storage.events.len() - i,
    {
        let ghost current = storage@;
        if marks[i] {
            let kept = record_run(&storage.events[i].last_run, now);
            storage.events[i].last_run = Some(kept);
            proof {
                assert(storage@ =~= current.update(i as int, run_at(current[i as int], now@)));
            }
        }
        i += 1;
    }
    proof {
        assert(storage@ =~= goal);
    }
}

/// The action that runs the task at `at`.
pub open spec fn run_action(events: Seq<EventView>, at: int) -> ActionView {
    ActionView::Run { index: at, slug: events[at].slug, command: events[at].command }
}

/// Where a tick at `now` leads from between two ticks.
pub open spec fn on_tick(
    s: SchedulerView,
    now: int,
    reloaded: Option<Seq<EventView>>,
) -> (SchedulerView, ActionView) {
    if s.state == LoopState::ShuttingDown {
        (s, ActionView::Exit)
    } else {
        let events = match reloaded {
            Some(fresh) => fresh,
            None => s.events,
        };
        match next_due(events, now, 0) {
            Some(at) => (
                SchedulerView { events, state: s.state, work: WorkView::Running { now, at } },
                run_action(events, at),
            ),
            None => (
                SchedulerView { events, state: s.state, work: WorkView::Idle },
                ActionView::Wait,
            ),
        }
    }
}

/// Where the end of a run leads in the tick of `now`, after the task at `at`.
pub open spec fn on_finished(s: SchedulerView, now: int, at: int) -> (SchedulerView, ActionView) {
    match next_due(s.events, now, at + 1) {
        Some(next) => (
            SchedulerView { work: WorkView::Running { now, at: next }, ..s },
            run_action(s.events, next),
        ),
        None => (
            SchedulerView {
                events: after_runs(s.events, now),
                state: s.state,
                work: WorkView::Persisting,
            },
            ActionView::Persist,
        ),
    }
}

/// The state after `signal` and the action it asks for.
pub open spec fn step_of(s: SchedulerView, signal: SignalView) -> (SchedulerView, ActionView) {
    match (s.work, signal) {
        (WorkView::Idle, SignalView::Tick { now, reloaded }) => on_tick(s, now, reloaded),
        (WorkView::Running { now, at }, SignalView::Finished) => on_finished(s, now, at),
        (WorkView::Persisting, SignalView::Persisted) => (
            SchedulerView { work: WorkView::Idle, ..s },
            if s.state == LoopState::ShuttingDown {
                ActionView::Exit
            } else {
                ActionView::Wait
            },
        ),
        (WorkView::Idle, SignalView::Shutdown) => (
            SchedulerView { state: LoopState::ShuttingDown, ..s },
            ActionView::Exit,
        ),
        (_, SignalView::Shutdown) => (
            SchedulerView { state: LoopState::ShuttingDown, ..s },
            ActionView::Continue,
        ),
        _ => (s, ActionView::Continue),
    }
}

/// The scheduler: the registry as last loaded, its index, and where the loop
/// stands.
#[derive(Debug)]
pub struct Scheduler {
    storage: Storage,
    schedules: ScheduleIndex,
    skipped: Vec<Skipped>,
    state: LoopState,
    work: Work,
    now: Timestamp,
    marks: Vec<bool>,
    cursor: usize,
}

impl View for Scheduler {
    type V = SchedulerView;

    closed spec fn view(&self) -> SchedulerView {
        SchedulerView {
            events: self.storage@,
            state: self.state,
            work: match self.work {
                Work::Idle => WorkView::Idle,
                Work::Running => WorkView::Running { now: self.now@, at: self.cursor as int },
                Work::Persisting => WorkView::Persisting,
            },
        }
    }
}

impl Scheduler {
    /// Whether the index belongs to the registry and, within a tick, the marks
    /// are those of the tasks that are due.
    pub closed spec fn wf(&self) -> bool {
        &&& self.schedules@ == index_of(self.storage@)
        &&& places(self.skipped@) == unparsed(self.storage@)
        &&& self.work == Work::Running ==> {
            &&& self.marks@ == due_marks(self.storage@, self.now@)
            &&& self.cursor < self.marks@.len()
            &&& self.marks@[self.cursor as int]
        }
    }

    /// A scheduler with an empty registry, running and between two ticks.
    pub fn new() -> (r: Scheduler)
        ensures
            r.wf(),
            r@ == (SchedulerView {
                events: Seq::<EventView>::empty(),
                state: LoopState::Running,
                work: WorkView::Idle,
            }),
    {
        let storage = Storage::new();
        let (schedules, skipped) = ScheduleIndex::build(&storage);
        Scheduler {
            storage,
            schedules,
            skipped,
            state: LoopState::Running,
            work: Work::Idle,
            now: Timestamp::epoch(),
            marks: Vec::new(),
            cursor: 0,
        }
    }

    /// Takes `storage` as the registry and builds its index anew. A tick that
    /// was under way is given up.
    pub fn load_events(&mut self, storage: Storage)
        ensures
            final(self).wf(),
            final(self)@ == (SchedulerView {
                events: storage@,
                state: old(self)@.state,
                work: WorkView::Idle,
            }),
    {
        let (schedules, skipped) = ScheduleIndex::build(&storage);
        self.storage = storage;
        self.schedules = schedules;
        self.skipped = skipped;
        self.work = Work::Idle;
    }

    /// The registry as the scheduler holds it.
    pub fn storage(&self) -> (r: &Storage)
        ensures
            r@ == self@.events,
    {
        &self.storage
    }

    /// Whether the loop goes on or is about to end.
    pub fn state(&self) -> (r: LoopState)
        ensures
            r == self@.state,
    {
        self.state
    }

    /// The tasks that have no index entry because their recurrence does not
    /// parse, in the order of the registry.
    pub fn skipped(&self) -> (r: &Vec<Skipped>)
        requires
            self.wf(),
        ensures
            places(r@) == unparsed(self@.events),
    {
        &self.skipped
    }

    /// Marks the tasks that are due at `now`.
    fn evaluate(&self, now: &Timestamp) -> (marks: Vec<bool>)
        requires
            self.schedules@ == index_of(self.storage@),
        ensures
            marks@ == due_marks(self.storage@, now@),
    {
        let mut marks: Vec<bool> = Vec::new();
        let mut i: usize = 0;
        while i < self.storage.events.len()
            invariant
                i <= self.storage.events.len(),
                self.schedules@ == index_of(self.storage@),
                marks@.len() == i,
                forall|at: int|
                    0 <= at < i ==> #[trigger] marks@[at] == due_task(self.storage@, now@, at),
            decreases self.storage.events.len() - i,
        {
            let event = &self.storage.events[i];
            assert(self.storage@[i as int] == event@);
            let due = event.active && match self.schedules.get(event.slug.as_str()) {
                Some(rule) => rule.is_due(&event.last_run, now),
                None => false,
            };
            marks.push(due);
            i += 1;
        }
        proof {
            assert(marks@ =~= due_marks(self.storage@, now@));
        }
        marks
    }

    /// Takes a signal from outside and says what to do next.
    pub fn step(&mut self, signal: Signal) -> (action: Action)
        requires
            old(self).wf(),
        ensures
            final(self).wf(),
            (final(self)@, action@) == step_of(old(self)@, signal@),
    {
        match signal {
            Signal::Tick { now, reloaded } => {
                if self.work != Work::Idle {
                    return Action::Continue;
                }
                if self.state == LoopState::ShuttingDown {
                    return Action::Exit;
                }
                match reloaded {
                    Some(storage) => {
                        self.load_events(storage);
                    },
                    None => {},
                }
                self.now = now;
                self.marks = self.evaluate(&now);
                match next_marked(&self.marks, 0) {
                    Some(at) => {
                        proof {
                            lemma_first_marked_is_first(self.marks@, 0);
                        }
                        self.cursor = at;
                        self.work = Work::Running;
                        self.order(at)
                    },
                    None => Action::Wait,
                }
            },
            Signal::Finished => {
                if self.work != Work::Running {
                    return Action::Continue;
                }
                assert(self.cursor < self.marks.len());
                match next_marked(&self.marks, self.cursor + 1) {
                    Some(at) => {
                        proof {
                            lemma_first_marked_is_first(self.marks@, self.cursor + 1);
                        }
                        self.cursor = at;
                        self.order(at)
                    },
                    None => {
                        proof {
                            lemma_runs_keep_index(self.storage@, self.now@);
                        }
                        record_runs(&mut self.storage, &self.marks, self.now);
                        self.work = Work::Persisting;
                        Action::Persist
                    },
                }
            },
            Signal::Persisted => {
                if self.work != Work::Persisting {
                    return Action::Continue;
                }
                self.work = Work::Idle;
                if self.state == LoopState::ShuttingDown {
                    Action::Exit
                } else {
                    Action::Wait
                }
            },
            Signal::Shutdown => {
                self.state = LoopState::ShuttingDown;
                if self.work == Work::Idle {
                    Action::Exit
                } else {
                    Action::Continue
                }
            },
        }
    }

    /// The action that orders the run of the task at `at`.
    fn order(&self, at: usize) -> (action: Action)
        requires
            at < self.storage@.len(),
        ensures
            action@ == run_action(self.storage@, at as int),
    {
        let event = &self.storage.events[at];
        assert(self.storage@[at as int] == event@);
        Action::Run { index: at, slug: event.slug.clone(), command: event.command.clone() }
    }
}

/// The runs of a tick change neither slug nor recurrence, so the index and the
/// places without a rule stay what they were.
pub proof fn lemma_runs_keep_index(events: Seq<EventView>, now: int)
    ensures
        index_of(after_runs(events, now)) == index_of(events),
        unparsed(after_runs(events, now)) == unparsed(events),
{
    lemma_index_reads_rules(events, after_runs(events, now));
}

/// Two registries that agree in every slug and recurrence have the same index
/// and the same places without a rule.
pub proof fn lemma_index_reads_rules(a: Seq<EventView>, b: Seq<EventView>)
    requires
        a.len() == b.len(),
        forall|at: int|
            0 <= at < a.len() ==> (#[trigger] a[at]).slug == b[at].slug && a[at].cron == b[at].cron,
    ensures
        index_of(a) == index_of(b),
        unparsed(a) == unparsed(b),
    decreases a.len(),
{
    if a.len() > 0 {
        assert forall|at: int| 0 <= at < a.drop_last().len() implies (#[trigger] a.drop_last()[at]).slug
            == b.drop_last()[at].slug && a.drop_last()[at].cron == b.drop_last()[at].cron by {
            assert(a[at].slug == b[at].slug);
        }
        lemma_index_reads_rules(a.drop_last(), b.drop_last());
        assert(a.last().slug == b.last().slug && a.last().cron == b.last().cron) by {
            assert(a[a.len() - 1].slug == b[a.len() - 1].slug);
        }
    }
    lemma_unparsed_reads_rules(a, b, a.len());
}

/// The places without a rule among the first `upto` are the same in two
/// registries that agree in every recurrence.
proof fn lemma_unparsed_reads_rules(a: Seq<EventView>, b: Seq<EventView>, upto: nat)
    requires
        a.len() == b.len(),
        upto <= a.len(),
        forall|at: int| 0 <= at < a.len() ==> (#[trigger] a[at]).cron == b[at].cron,
    ensures
        positions(upto).filter(fails_at(a)) == positions(upto).filter(fails_at(b)),
    decreases upto,
{
    reveal(Seq::filter);
    if upto > 0 {
        lemma_unparsed_reads_rules(a, b, (upto - 1) as nat);
        assert(positions(upto).drop_last() =~= positions((upto - 1) as nat));
        assert(a[upto - 1].cron == b[upto - 1].cron);
    }
}

/// Where slugs are unique, a task is due when it is active, its own recurrence
/// parses and by that recurrence it is due. A task whose recurrence does not
/// parse is passed over, and says nothing about any other task.
pub proof fn lemma_due_by_own_rule(events: Seq<EventView>, now: int, at: int)
    requires
        unique_slugs(events),
        0 <= at < events.len(),
    ensures
        due_task(events, now, at) == (events[at].active && parses(events[at].cron) && due_at(
            events[at].cron,
            events[at].last_run,
            now,
        )),
{
    let slug = events[at].slug;
    lemma_index_holds_rules(events, slug);
    if parses(events[at].cron) {
        lemma_index_of_unique(events, at);
    } else if index_of(events).dom().contains(slug) {
        let found = choose|found: int|
            0 <= found < events.len() && (#[trigger] events[found]).slug == slug && parses(
                events[found].cron,
            );
        if found < at {
            assert(events[found].slug != events[at].slug);
        } else if at < found {
            assert(events[at].slug != events[found].slug);
        }
    }
}

/// At the end of a tick every task that was due has the run recorded, and
/// every other task is what it was. Nothing but the last run changes, so slugs
/// stay unique.
pub proof fn lemma_tick_records_runs(events: Seq<EventView>, now: int)
    ensures
        after_runs(events, now).len() == events.len(),
        forall|at: int|
            0 <= at < events.len() && due_task(events, now, at) ==> (#[trigger] after_runs(
                events,
                now,
            )[at]) == run_at(events[at], now),
        forall|at: int|
            0 <= at < events.len() && !due_task(events, now, at) ==> (#[trigger] after_runs(
                events,
                now,
            )[at]) == events[at],
        unique_slugs(events) ==> unique_slugs(after_runs(events, now)),
{
    let after = after_runs(events, now);
    if unique_slugs(events) {
        assert forall|i: int, j: int| 0 <= i < j < after.len() implies #[trigger] after[i].slug
            != #[trigger] after[j].slug by {
            assert(events[i].slug != events[j].slug);
        }
    }
}

/// A tick never takes a last run away and never moves one back, and the last
/// run of a task that ran in the tick is not before the tick's instant.
pub proof fn lemma_last_run_advances(events: Seq<EventView>, now: int, at: int)
    requires
        0 <= at < events.len(),
    ensures
        events[at].last_run matches Some(before) ==> after_runs(events, now)[at].last_run
            matches Some(after) && before <= after,
        due_task(events, now, at) ==> after_runs(events, now)[at].last_run == Some(
            recorded_run(events[at].last_run, now),
        ) && now <= recorded_run(events[at].last_run, now),
{
}

/// Whether `signal` brings a registry that was read anew.
pub open spec fn brings_registry(signal: SignalView) -> bool {
    signal matches SignalView::Tick { reloaded: Some(_), .. }
}

/// No step of the scheduler takes a last run away or moves one back, and no
/// step changes anything else of a task. The one step that is left out is the
/// tick that brings a registry read anew, which takes the place of the old
/// one.
pub proof fn lemma_step_advances_last_runs(s: SchedulerView, signal: SignalView, at: int)
    requires
        !brings_registry(signal),
        0 <= at < s.events.len(),
    ensures
        step_of(s, signal).0.events.len() == s.events.len(),
        step_of(s, signal).0.events[at] == (EventView {
            last_run: step_of(s, signal).0.events[at].last_run,
            ..s.events[at]
        }),
        s.events[at].last_run matches Some(before) ==> step_of(s, signal).0.events[at].last_run
            matches Some(after) && before <= after,
{
    match (s.work, signal) {
        (WorkView::Running { now, at: running }, SignalView::Finished) => {
            lemma_last_run_advances(s.events, now, at);
        },
        _ => {},
    }
}

/// A task that ran in the tick of `now` is not due again at `now`, unless its
/// rule has an occurrence later than the last run that the tick left behind
/// and within the tolerance after `now`.
pub proof fn lemma_tick_does_not_repeat(events: Seq<EventView>, now: int, at: int)
    requires
        0 <= at < events.len(),
        due_task(events, now, at),
        next_occurrence(
            index_of(events)[events[at].slug],
            recorded_run(events[at].last_run, now),
        ) matches Some(next) ==> horizon(now) < next,
    ensures
        !due_task(after_runs(events, now), now, at),
{
    lemma_runs_keep_index(events, now);
}

/// The first marked place at or after `from` is marked and no place between
/// `from` and it is; where there is none, no place from `from` on is marked.
pub proof fn lemma_first_marked_is_first(marks: Seq<bool>, from: int)
    requires
        0 <= from,
    ensures
        match first_marked(marks, from) {
            Some(at) => {
                &&& from <= at < marks.len()
                &&& marks[at]
                &&& forall|between: int| from <= between < at ==> !marks[between]
            },
            None => forall|later: int| from <= later < marks.len() ==> !marks[later],
        },
    decreases marks.len() - from,
{
    if from < marks.len() && !marks[from] {
        lemma_first_marked_is_first(marks, from + 1);
    }
}

/// The first due place at or after `from` is due, no place between `from`
/// and it is, and where there is none no place from `from` on is due: tasks
/// run in the order of the registry.
pub proof fn lemma_next_due_is_first(events: Seq<EventView>, now: int, from: int)
    requires
        0 <= from,
    ensures
        match next_due(events, now, from) {
            Some(at) => {
                &&& from <= at < events.len()
                &&& due_task(events, now, at)
                &&& forall|between: int| from <= between < at ==> !due_task(events, now, between)
            },
            None => forall|later: int| from <= later < events.len() ==> !due_task(
                events,
                now,
                later,
            ),
        },
{
    let marks = due_marks(events, now);
    lemma_first_marked_is_first(marks, from);
    match next_due(events, now, from) {
        Some(at) => {
            assert forall|between: int| from <= between < at implies !due_task(
                events,
                now,
                between,
            ) by {
                assert(!marks[between]);
            }
        },
        None => {
            assert forall|later: int| from <= later < events.len() implies !due_task(
                events,
                now,
                later,
            ) by {
                assert(!marks[later]);
            }
        },
    }
}

/// The state after as many `Finished` signals as it takes, `steps` at most,
/// to end the runs of a tick.
pub open spec fn after_finished(s: SchedulerView, steps: nat) -> SchedulerView
    decreases steps,
{
    if steps == 0 {
        s
    } else {
        match s.work {
            WorkView::Running { .. } => after_finished(
                step_of(s, SignalView::Finished).0,
                (steps - 1) as nat,
            ),
            _ => s,
        }
    }
}

/// A tick comes to its end: while the task at `at` runs, at most as many
/// `Finished` signals as there are places from `at` on lead to the one write
/// of the registry, in which every task that was due at the tick's instant
/// has run at that instant.
pub proof fn lemma_tick_ends(s: SchedulerView, now: int, at: int)
    requires
        s.work == (WorkView::Running { now, at }),
        0 <= at < s.events.len(),
    ensures
        after_finished(s, (s.events.len() - at) as nat) == (SchedulerView {
            events: after_runs(s.events, now),
            state: s.state,
            work: WorkView::Persisting,
        }),
    decreases s.events.len() - at,
{
    let steps = (s.events.len() - at) as nat;
    let next = step_of(s, SignalView::Finished).0;
    lemma_next_due_is_first(s.events, now, at + 1);
    match next_due(s.events, now, at + 1) {
        Some(later) => {
            lemma_tick_ends(next, now, later);
            lemma_more_steps_change_nothing(
                next,
                (s.events.len() - later) as nat,
                (steps - 1) as nat,
            );
        },
        None => {
            lemma_more_steps_change_nothing(next, 0, (steps - 1) as nat);
        },
    }
}

/// Once the runs of a tick have ended, further steps of `after_finished`
/// change nothing.
proof fn lemma_more_steps_change_nothing(s: SchedulerView, enough: nat, more: nat)
    requires
        enough <= more,
        after_finished(s, enough).work == WorkView::Persisting,
    ensures
        after_finished(s, more) == after_finished(s, enough),
    decreases enough,
{
    if enough == 0 {
        if more > 0 {
            assert(after_finished(s, more) == s);
        }
    } else {
        match s.work {
            WorkView::Running { .. } => {
                lemma_more_steps_change_nothing(
                    step_of(s, SignalView::Finished).0,
                    (enough - 1) as nat,
                    (more - 1) as nat,
                );
            },
            _ => {},
        }
    }
}

} // verus!
