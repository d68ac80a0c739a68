//! The run: the order of things from the first look at the directories to
//! the one line of report.
//!
//! A `Run` does none of the work itself. It is told what happened and says
//! what is to be done next; the caller creates directories, reads the
//! listing, starts workers and waits for them. Nothing is dispatched before
//! both directories are known to be usable, and nothing is reported before
//! every worker has terminated.

use crate::pipeline::aggregate::RunSummary;
use crate::pipeline::dispatch::{
    lemma_turns, round_robin_queue, static_chunks, static_partition, Assignment, RoundRobin,
};
use crate::pipeline::item::{
    spec_enumerate, work_item_for, EntryView, ListingEntry, WorkItem, WorkItemView,
};
use vstd::prelude::*;

verus! {

/// How the work of a run is divided among its workers.
#[derive(Clone, Copy, Debug, PartialEq, Eq, Structural)]
pub enum Strategy {
    /// Long-lived workers with a queue each; entries are dealt to them in
    /// turn while the listing is still being read.
    RoundRobin,
    /// The whole listing is read first and cut into one contiguous chunk per
    /// worker.
    StaticPartition,
    /// The whole listing is read first and handed to a pool whose workers
    /// pull the next item when they are free.
    DynamicPool,
}

/// Why a run was given up before it could report.
#[derive(Clone, Copy, Debug, PartialEq, Eq, Structural)]
pub enum RunError {
    /// The output directory is not there and could not be created.
    OutputDirectory,
    /// The input directory could not be listed.
    InputDirectory,
}

/// How far a run has come.
#[derive(Clone, Copy, Debug, PartialEq, Eq, Structural)]
pub enum Phase {
    /// The output directory is being created.
    CreatingOutput,
    /// The input directory is being opened.
    OpeningInput,
    /// The listing is being read, entry by entry.
    Enumerating,
    /// All work is handed out; the workers are finishing it.
    Draining,
    /// The listing broke off after workers had been started; they are
    /// finishing what they had been sent.
    WindingDown,
    /// The run has reported.
    Finished(RunSummary),
    /// The run was given up.
    Failed(RunError),
}

/// What the caller tells a run.
#[derive(Debug)]
pub enum RunEvent {
    /// The output directory exists now.
    OutputCreated,
    /// The output directory could not be created.
    OutputFailed,
    /// The input directory is open for listing.
    InputOpened,
    /// The input directory could not be opened, or listing it broke off.
    InputFailed,
    /// The next entry of the listing.
    Entry(ListingEntry),
    /// The listing has no more entries.
    EndOfListing,
    /// Every worker has terminated; the aggregator holds this summary.
    Drained(RunSummary),
}

/// The mathematical value of a `RunEvent`.
pub enum EventView {
    OutputCreated,
    OutputFailed,
    InputOpened,
    InputFailed,
    Entry(EntryView),
    EndOfListing,
    Drained(RunSummary),
}

impl View for RunEvent {
    type V = EventView;

    open spec fn view(&self) -> EventView {
        match self {
            RunEvent::OutputCreated => EventView::OutputCreated,
            RunEvent::OutputFailed => EventView::OutputFailed,
            RunEvent::InputOpened => EventView::InputOpened,
            RunEvent::InputFailed => EventView::InputFailed,
            RunEvent::Entry(entry) => EventView::Entry(entry@),
            RunEvent::EndOfListing => EventView::EndOfListing,
            RunEvent::Drained(summary) => EventView::Drained(*summary),
        }
    }
}

/// What a run asks of its caller.
#[derive(Debug)]
pub enum Step {
    /// Create the output directory, with the directories above it.
    CreateOutput { dir: String },
    /// Open the input directory for listing.
    OpenInput { dir: String },
    /// Start this many workers, each with an empty queue of its own, then
    /// read the first entry of the listing.
    StartWorkers { count: usize },
    /// Read the next entry of the listing.
    ReadEntry,
    /// Put the item on the queue of the worker, then read the next entry.
    Send { assignment: Assignment },
    /// Close every queue, so that each worker terminates when its queue is
    /// empty, and wait for all of them.
    CloseQueues,
    /// Start one task per chunk, each working through its chunk from front
    /// to back, and wait for all of them.
    Spawn { chunks: Vec<Vec<WorkItem>> },
    /// Hand the items to a pool of this many workers and wait until each
    /// item has been taken and finished.
    Submit { items: Vec<WorkItem>, workers: usize },
    /// Print the line; the run is over.
    Report { line: String },
    /// Give the run up for this reason; the run is over.
    Abort { error: RunError },
    /// Nothing: the run was told something it was not waiting for.
    Nothing,
}

/// The mathematical value of a `Step`.
pub enum StepView {
    CreateOutput { dir: Seq<char> },
    OpenInput { dir: Seq<char> },
    StartWorkers { count: nat },
    ReadEntry,
    Send { worker: nat, item: WorkItemView },
    CloseQueues,
    Spawn { chunks: Seq<Seq<WorkItemView>> },
    Submit { items: Seq<WorkItemView>, workers: nat },
    Report { line: Seq<char> },
    Abort { error: RunError },
    Nothing,
}

impl View for Step {
    type V = StepView;

    open spec fn view(&self) -> StepView {
        match self {
            Step::CreateOutput { dir } => StepView::CreateOutput { dir: dir@ },
            Step::OpenInput { dir } => StepView::OpenInput { dir: dir@ },
            Step::StartWorkers { count } => StepView::StartWorkers { count: *count as nat },
            Step::ReadEntry => StepView::ReadEntry,
            Step::Send { assignment } => StepView::Send {
                worker: assignment.worker as nat,
                item: assignment.item@,
            },
            Step::CloseQueues => StepView::CloseQueues,
            Step::Spawn { chunks } => StepView::Spawn { chunks: chunks.deep_view() },
            Step::Submit { items, workers } => StepView::Submit {
                items: items.deep_view(),
                workers: *workers as nat,
            },
            Step::Report { line } => StepView::Report { line: line@ },
            Step::Abort { error } => StepView::Abort { error: *error },
            Step::Nothing => StepView::Nothing,
        }
    }
}

/// The mathematical value of a `Run`: what it was set up with, how far it
/// has come, the worker whose turn it is, and the work items it is holding
/// for the end of the listing.
pub struct RunView {
    pub strategy: Strategy,
    pub workers: nat,
    pub input_dir: Seq<char>,
    pub output_dir: Seq<char>,
    pub phase: Phase,
    pub turn: nat,
    pub held: Seq<WorkItemView>,
}

impl RunView {
    /// A run that has just been set up.
    pub open spec fn fresh(
        strategy: Strategy,
        workers: nat,
        input_dir: Seq<char>,
        output_dir: Seq<char>,
    ) -> RunView {
        RunView {
            strategy,
            workers,
            input_dir,
            output_dir,
            phase: Phase::CreatingOutput,
            turn: 0,
            held: Seq::empty(),
        }
    }

    /// The run after one more entry of the listing: the turn passes on, and
    /// under the strategies that wait for the end of the listing a regular
    /// file joins the items held.
    pub open spec fn with_entry(self, entry: EntryView) -> RunView {
        RunView {
            turn: if self.workers == 0 {
                0
            } else {
                ((self.turn as int + 1) % (self.workers as int)) as nat
            },
            held: if self.strategy is RoundRobin || entry.is_dir {
                self.held
            } else {
                self.held.push(work_item_for(entry, self.input_dir, self.output_dir))
            },
            ..self
        }
    }

    /// The run after `event`. An event that the run is not waiting for
    /// changes nothing; a run that has reported or was given up stays as it
    /// is.
    pub open spec fn after(self, event: EventView) -> RunView {
        match (self.phase, event) {
            (Phase::CreatingOutput, EventView::OutputCreated) => RunView {
                phase: Phase::OpeningInput,
                ..self
            },
            (Phase::CreatingOutput, EventView::OutputFailed) => RunView {
                phase: Phase::Failed(RunError::OutputDirectory),
                ..self
            },
            (Phase::OpeningInput, EventView::InputOpened) => RunView {
                phase: Phase::Enumerating,
                ..self
            },
            (Phase::OpeningInput, EventView::InputFailed) => RunView {
                phase: Phase::Failed(RunError::InputDirectory),
                ..self
            },
            (Phase::Enumerating, EventView::Entry(entry)) => self.with_entry(entry),
            (Phase::Enumerating, EventView::EndOfListing) => RunView {
                phase: Phase::Draining,
                ..self
            },
            (Phase::Enumerating, EventView::InputFailed) => RunView {
                phase: if self.strategy is RoundRobin {
                    Phase::WindingDown
                } else {
                    Phase::Failed(RunError::InputDirectory)
                },
                ..self
            },
            (Phase::Draining, EventView::Drained(summary)) => RunView {
                phase: Phase::Finished(summary),
                ..self
            },
            (Phase::WindingDown, EventView::Drained(_)) => RunView {
                phase: Phase::Failed(RunError::InputDirectory),
                ..self
            },
            _ => self,
        }
    }

    /// What the run asks for when `event` arrives.
    pub open spec fn step_on(self, event: EventView) -> StepView {
        match (self.phase, event) {
            (Phase::CreatingOutput, EventView::OutputCreated) => StepView::OpenInput {
                dir: self.input_dir,
            },
            (Phase::CreatingOutput, EventView::OutputFailed) => StepView::Abort {
                error: RunError::OutputDirectory,
            },
            (Phase::OpeningInput, EventView::InputOpened) => if self.strategy is RoundRobin {
                StepView::StartWorkers { count: self.workers }
            } else {
                StepView::ReadEntry
            },
            (Phase::OpeningInput, EventView::InputFailed) => StepView::Abort {
                error: RunError::InputDirectory,
            },
            (Phase::Enumerating, EventView::Entry(entry)) => if self.strategy is RoundRobin
                && !entry.is_dir {
                StepView::Send {
                    worker: self.turn,
                    item: work_item_for(entry, self.input_dir, self.output_dir),
                }
            } else {
                StepView::ReadEntry
            },
            (Phase::Enumerating, EventView::EndOfListing) => match self.strategy {
                Strategy::RoundRobin => StepView::CloseQueues,
                Strategy::StaticPartition => StepView::Spawn {
                    chunks: static_chunks(self.held, self.workers),
                },
                Strategy::DynamicPool => StepView::Submit {
                    items: self.held,
                    workers: self.workers,
                },
            },
            (Phase::Enumerating, EventView::InputFailed) => if self.strategy is RoundRobin {
                StepView::CloseQueues
            } else {
                StepView::Abort { error: RunError::InputDirectory }
            },
            (Phase::Draining, EventView::Drained(summary)) => StepView::Report {
                line: crate::pipeline::aggregate::report_text(summary.count as nat),
            },
            (Phase::WindingDown, EventView::Drained(_)) => StepView::Abort {
                error: RunError::InputDirectory,
            },
            _ => StepView::Nothing,
        }
    }
}

/// One run of the pipeline.
#[derive(Debug)]
pub struct Run {
    strategy: Strategy,
    input_dir: String,
    output_dir: String,
    phase: Phase,
    dispatcher: RoundRobin,
    held: Vec<WorkItem>,
}

impl View for Run {
    type V = RunView;

    closed spec fn view(&self) -> RunView {
        RunView {
            strategy: self.strategy,
            workers: self.dispatcher.workers(),
            input_dir: self.input_dir@,
            output_dir: self.output_dir@,
            phase: self.phase,
            turn: self.dispatcher.next_worker(),
            held: self.held.deep_view(),
        }
    }
}

impl Run {
    /// Sets up a run. The first thing to do is to create the output
    /// directory.
    pub fn start(strategy: Strategy, workers: usize, input_dir: &str, output_dir: &str) -> (started:
        (Run, Step))
        requires
            workers > 0,
        ensures
            started.0@ == RunView::fresh(strategy, workers as nat, input_dir@, output_dir@),
            started.1@ == (StepView::CreateOutput { dir: output_dir@ }),
    {
        let held: Vec<WorkItem> = Vec::new();
        assert(held.deep_view() =~= Seq::<WorkItemView>::empty());
        let run = Run {
            strategy,
            input_dir: input_dir.to_owned(),
            output_dir: output_dir.to_owned(),
            phase: Phase::CreatingOutput,
            dispatcher: RoundRobin::new(workers),
            held,
        };
        (run, Step::CreateOutput { dir: output_dir.to_owned() })
    }

    /// How far the run has come.
    pub fn phase(&self) -> (phase: Phase)
        ensures
            phase == self@.phase,
    {
        self.phase
    }

    /// Whether the run is over, with a report or without.
    pub fn is_over(&self) -> (over: bool)
        ensures
            over == (self@.phase is Finished || self@.phase is Failed),
    {
        match self.phase {
            Phase::Finished(_) => true,
            Phase::Failed(_) => true,
            _ => false,
        }
    }

    /// Takes note of what happened and says what is to be done next.
    pub fn handle(&mut self, event: RunEvent) -> (step: Step)
        ensures
            final(self)@ == old(self)@.after(event@),
            step@ == old(self)@.step_on(event@),
            old(self)@.workers > 0,
            old(self)@.turn < old(self)@.workers,
    {
        let workers = self.dispatcher.worker_count();
        let _turn = self.dispatcher.turn();
        match (self.phase, event) {
            (Phase::CreatingOutput, RunEvent::OutputCreated) => {
                self.phase = Phase::OpeningInput;
                Step::OpenInput { dir: self.input_dir.clone() }
            },
            (Phase::CreatingOutput, RunEvent::OutputFailed) => {
                self.phase = Phase::Failed(RunError::OutputDirectory);
                Step::Abort { error: RunError::OutputDirectory }
            },
            (Phase::OpeningInput, RunEvent::InputOpened) => {
                self.phase = Phase::Enumerating;
                match self.strategy {
                    Strategy::RoundRobin => Step::StartWorkers { count: workers },
                    _ => Step::ReadEntry,
                }
            },
            (Phase::OpeningInput, RunEvent::InputFailed) => {
                self.phase = Phase::Failed(RunError::InputDirectory);
                Step::Abort { error: RunError::InputDirectory }
            },
            (Phase::Enumerating, RunEvent::Entry(entry)) => {
                let ghost before = self.held.deep_view();
                let routing = self.dispatcher.offer(
                    &entry,
                    self.input_dir.as_str(),
                    self.output_dir.as_str(),
                );
                match self.strategy {
                    Strategy::RoundRobin => match routing {
                        Some(assignment) => Step::Send { assignment },
                        None => Step::ReadEntry,
                    },
                    _ => {
                        match routing {
                            Some(assignment) => {
                                let ghost item = assignment.item@;
                                self.held.push(assignment.item);
                                assert(self.held.deep_view() =~= before.push(item));
                            },
                            None => {},
                        }
                        Step::ReadEntry
                    },
                }
            },
            (Phase::Enumerating, RunEvent::EndOfListing) => {
                self.phase = Phase::Draining;
                match self.strategy {
                    Strategy::RoundRobin => Step::CloseQueues,
                    Strategy::StaticPartition => Step::Spawn {
                        chunks: static_partition(&self.held, workers),
                    },
                    Strategy::DynamicPool => {
                        let items = copy_items(&self.held);
                        Step::Submit { items, workers }
                    },
                }
            },
            (Phase::Enumerating, RunEvent::InputFailed) => {
                match self.strategy {
                    Strategy::RoundRobin => {
                        self.phase = Phase::WindingDown;
                        Step::CloseQueues
                    },
                    _ => {
                        self.phase = Phase::Failed(RunError::InputDirectory);
                        Step::Abort { error: RunError::InputDirectory }
                    },
                }
            },
            (Phase::Draining, RunEvent::Drained(summary)) => {
                self.phase = Phase::Finished(summary);
                Step::Report { line: summary.report_line() }
            },
            (Phase::WindingDown, RunEvent::Drained(_)) => {
                self.phase = Phase::Failed(RunError::InputDirectory);
                Step::Abort { error: RunError::InputDirectory }
            },
            _ => Step::Nothing,
        }
    }
}

/// A copy of `items`, item by item.
pub fn copy_items(items: &Vec<WorkItem>) -> (copy: Vec<WorkItem>)
    ensures
        copy.deep_view() == items.deep_view(),
{
    let mut copy: Vec<WorkItem> = Vec::new();
    let mut i: usize = 0;
    while i < items.len()
        invariant
            i <= items.len(),
            copy.deep_view() =~= items.deep_view().take(i as int),
        decreases items.len() - i,
    {
        let ghost copied = copy.deep_view();
        let item = items[i].clone();
        copy.push(item);
        assert(copy.deep_view() =~= copied.push(items.deep_view()[i as int]));
        i += 1;
    }
    assert(items.deep_view().take(i as int) =~= items.deep_view());
    copy
}

impl RunView {
    /// The run after a whole sequence of events.
    pub open spec fn after_all(self, events: Seq<EventView>) -> RunView
        decreases events.len(),
    {
        if events.len() == 0 {
            self
        } else {
            self.after_all(events.drop_last()).after(events.last())
        }
    }

    /// What the run asks for on the `i`-th of a sequence of events.
    pub open spec fn step_at(self, events: Seq<EventView>, i: int) -> StepView {
        self.after_all(events.take(i)).step_on(events[i])
    }
}

/// Whether a step starts workers or hands work to them.
pub open spec fn hands_out_work(step: StepView) -> bool {
    step is StartWorkers || step is Send || step is Spawn || step is Submit
}

/// The entries of a listing as the events that bring them to a run.
pub open spec fn entry_events(listing: Seq<EntryView>) -> Seq<EventView> {
    listing.map_values(|entry: EntryView| EventView::Entry(entry))
}

/// What a run has been through shows in how far it has come: it opens the
/// input directory only once the output directory is there, reads entries
/// only once the input directory is open, waits for its workers only once
/// the listing has ended or broken off, and has reported only the summary it
/// was handed when its workers had drained.
pub proof fn lemma_phase_history(
    strategy: Strategy,
    workers: nat,
    input_dir: Seq<char>,
    output_dir: Seq<char>,
    events: Seq<EventView>,
)
    ensures
        ({
            let run = RunView::fresh(strategy, workers, input_dir, output_dir).after_all(events);
            &&& run.strategy == strategy && run.workers == workers && run.input_dir == input_dir
                && run.output_dir == output_dir
            &&& !(run.phase is CreatingOutput) && run.phase != Phase::Failed(
                RunError::OutputDirectory,
            ) ==> events.contains(EventView::OutputCreated)
            &&& run.phase == Phase::Failed(RunError::OutputDirectory) ==> events.contains(
                EventView::OutputFailed,
            )
            &&& run.phase == Phase::Failed(RunError::InputDirectory) ==> events.contains(
                EventView::InputFailed,
            )
            &&& run.phase is Enumerating || run.phase is Draining || run.phase is WindingDown
                || run.phase is Finished ==> events.contains(EventView::InputOpened)
            &&& run.phase is WindingDown ==> events.contains(EventView::InputFailed)
            &&& run.phase is Draining || run.phase is Finished ==> events.contains(
                EventView::EndOfListing,
            )
            &&& run.phase matches Phase::Finished(summary) ==> events.contains(
                EventView::Drained(summary),
            )
        }),
    decreases events.len(),
{
    if events.len() > 0 {
        let earlier = events.drop_last();
        lemma_phase_history(strategy, workers, input_dir, output_dir, earlier);
        assert forall|e: EventView| earlier.contains(e) implies events.contains(e) by {
            let i = choose|i: int| 0 <= i < earlier.len() && earlier[i] == e;
            assert(events[i] == e);
        }
        assert(events.contains(events.last())) by {
            assert(events[events.len() - 1] == events.last());
        }
    }
}

/// No worker is started and no work is handed out before both directories
/// have proved usable: whenever a run asks for that, the first it was told
/// of the output directory is that it exists, and it has been told, then or
/// earlier, that the input directory is open.
pub proof fn law_preconditions_come_first(
    strategy: Strategy,
    workers: nat,
    input_dir: Seq<char>,
    output_dir: Seq<char>,
    events: Seq<EventView>,
    i: int,
)
    requires
        0 <= i < events.len(),
        hands_out_work(
            RunView::fresh(strategy, workers, input_dir, output_dir).step_at(events, i),
        ),
    ensures
        first_output_answer(events.take(i)) == Some(true),
        events.take(i + 1).contains(EventView::InputOpened),
{
    let before = events.take(i);
    lemma_phase_history(strategy, workers, input_dir, output_dir, before);
    lemma_failure_is_final(strategy, workers, input_dir, output_dir, before);
    let run = RunView::fresh(strategy, workers, input_dir, output_dir).after_all(before);
    if run.phase is OpeningInput {
        assert(events[i] == EventView::InputOpened);
        assert(events.take(i + 1)[i] == events[i]);
    } else {
        assert(run.phase is Enumerating);
        let j = choose|j: int| 0 <= j < before.len() && before[j] == EventView::InputOpened;
        assert(events.take(i + 1)[j] == EventView::InputOpened);
    }
}

/// The first answer about the output directory decides: until it comes the
/// run waits for it; if it is a failure the run is given up for good; and
/// only if it is a success does the run go on.
pub proof fn lemma_failure_is_final(
    strategy: Strategy,
    workers: nat,
    input_dir: Seq<char>,
    output_dir: Seq<char>,
    events: Seq<EventView>,
)
    ensures
        ({
            let run = RunView::fresh(strategy, workers, input_dir, output_dir).after_all(events);
            match first_output_answer(events) {
                None => run.phase is CreatingOutput,
                Some(false) => run.phase == Phase::Failed(RunError::OutputDirectory),
                Some(true) => !(run.phase is CreatingOutput) && run.phase != Phase::Failed(
                    RunError::OutputDirectory,
                ),
            }
        }),
    decreases events.len(),
{
    if events.len() > 0 {
        lemma_failure_is_final(strategy, workers, input_dir, output_dir, events.drop_last());
    }
}

/// The first answer about the output directory among `events`: whether it
/// was created, or nothing where there is no answer yet.
pub open spec fn first_output_answer(events: Seq<EventView>) -> Option<bool>
    decreases events.len(),
{
    if events.len() == 0 {
        None
    } else {
        match first_output_answer(events.drop_last()) {
            Some(answer) => Some(answer),
            None => match events.last() {
                EventView::OutputCreated => Some(true),
                EventView::OutputFailed => Some(false),
                _ => None,
            },
        }
    }
}

/// A run that is reading the listing sees every entry once, in order. Under
/// the round robin each regular file is sent, as it is read, to the worker
/// that its position in the listing falls to; under the other strategies it
/// is held back, and at the end of the listing the run holds the work items
/// of the listing.
pub proof fn law_run_enumerates(run: RunView, listing: Seq<EntryView>)
    requires
        run.phase is Enumerating,
        run.workers > 0,
        run.turn == 0,
        run.held.len() == 0,
    ensures
        ({
            let end = run.after_all(entry_events(listing));
            &&& end.phase is Enumerating
            &&& end.turn == listing.len() % run.workers
            &&& end.strategy == run.strategy && end.workers == run.workers && end.input_dir
                == run.input_dir && end.output_dir == run.output_dir
            &&& run.strategy is RoundRobin ==> end.held.len() == 0
            &&& !(run.strategy is RoundRobin) ==> end.held == spec_enumerate(
                listing,
                run.input_dir,
                run.output_dir,
            )
        }),
        forall|i: int|
            0 <= i < listing.len() ==> #[trigger] run.step_at(entry_events(listing), i) == if run.strategy
                is RoundRobin && !listing[i].is_dir {
                StepView::Send {
                    worker: (i % (run.workers as int)) as nat,
                    item: work_item_for(listing[i], run.input_dir, run.output_dir),
                }
            } else {
                StepView::ReadEntry
            },
    decreases listing.len(),
{
    let events = entry_events(listing);
    if listing.len() == 0 {
        vstd::arithmetic::div_mod::lemma_small_mod(0, run.workers);
        assert(run.held =~= Seq::<WorkItemView>::empty());
    } else {
        let init = listing.drop_last();
        let last = listing.len() - 1;
        law_run_enumerates(run, init);
        assert(events.drop_last() =~= entry_events(init));
        lemma_turns(last as nat, run.workers);
        assert forall|i: int| 0 <= i < listing.len() implies #[trigger] run.step_at(events, i)
            == if run.strategy is RoundRobin && !listing[i].is_dir {
            StepView::Send {
                worker: (i % (run.workers as int)) as nat,
                item: work_item_for(listing[i], run.input_dir, run.output_dir),
            }
        } else {
            StepView::ReadEntry
        } by {
            if i < last {
                assert(events.take(i) =~= entry_events(init).take(i));
                assert(run.step_at(events, i) == run.step_at(entry_events(init), i));
            } else {
                assert(events.take(i) =~= entry_events(init));
            }
        }
    }
}

/// The work items that a run sends to worker `w` while it reads `listing`,
/// in the order in which it sends them.
pub open spec fn sent_to(run: RunView, listing: Seq<EntryView>, w: int) -> Seq<WorkItemView>
    decreases listing.len(),
{
    if listing.len() == 0 {
        Seq::empty()
    } else {
        let earlier = sent_to(run, listing.drop_last(), w);
        match run.step_at(entry_events(listing), listing.len() - 1) {
            StepView::Send { worker, item } => if worker == w {
                earlier.push(item)
            } else {
                earlier
            },
            _ => earlier,
        }
    }
}

/// What a run hands out is the work of the listing, dealt as its strategy
/// deals. Under the round robin each worker is sent, entry by entry, what
/// the round-robin queues hold for it. Under the static partition the run
/// spawns, at the end of the listing, the chunks of the work items of the
/// listing; under the dynamic pool it submits these work items as they are.
pub proof fn law_run_hands_out_the_listing(run: RunView, listing: Seq<EntryView>, w: int)
    requires
        run.phase is Enumerating,
        run.workers > 0,
        run.turn == 0,
        run.held.len() == 0,
    ensures
        run.strategy is RoundRobin ==> sent_to(run, listing, w) == round_robin_queue(
            listing,
            run.input_dir,
            run.output_dir,
            run.workers,
            w,
        ),
        run.strategy is StaticPartition ==> run.after_all(entry_events(listing)).step_on(
            EventView::EndOfListing,
        ) == (StepView::Spawn {
            chunks: static_chunks(
                spec_enumerate(listing, run.input_dir, run.output_dir),
                run.workers,
            ),
        }),
        run.strategy is DynamicPool ==> run.after_all(entry_events(listing)).step_on(
            EventView::EndOfListing,
        ) == (StepView::Submit {
            items: spec_enumerate(listing, run.input_dir, run.output_dir),
            workers: run.workers,
        }),
    decreases listing.len(),
{
    law_run_enumerates(run, listing);
    if listing.len() > 0 {
        law_run_hands_out_the_listing(run, listing.drop_last(), w);
        let last = listing.len() - 1;
        assert(run.step_at(entry_events(listing), last) == if run.strategy is RoundRobin
            && !listing[last].is_dir {
            StepView::Send {
                worker: (last % (run.workers as int)) as nat,
                item: work_item_for(listing[last], run.input_dir, run.output_dir),
            }
        } else {
            StepView::ReadEntry
        });
    }
}

} // verus!
