//! The worker: what is done with one work item, step by step.
//!
//! A worker never touches the codec itself. It says what it needs next, the
//! caller does it and reports back, and the worker moves on. A source that
//! cannot be decoded and a thumbnail that cannot be written both retire the
//! item without a success; neither stops the run.

use crate::pipeline::item::{FilePath, PathView, WorkItem, WorkItemView};
use crate::pipeline::outcome::ProcessingOutcome;
use vstd::prelude::*;

verus! {

/// The width that no thumbnail exceeds.
pub const THUMBNAIL_WIDTH: u32 = 64;

/// The height that no thumbnail exceeds.
pub const THUMBNAIL_HEIGHT: u32 = 64;

/// Where a worker stands with its item.
#[derive(Clone, Copy, Debug, PartialEq, Eq, Structural)]
pub enum WorkerState {
    /// The source is being decoded.
    Decoding,
    /// The source was decoded; its thumbnail is being written.
    Saving,
    /// The item is retired.
    Finished(ProcessingOutcome),
}

/// What the codec answered.
#[derive(Clone, Copy, Debug, PartialEq, Eq, Structural)]
pub enum CodecEvent {
    /// The source was read and is an image.
    Decoded,
    /// The source could not be read as an image.
    DecodeFailed,
    /// The thumbnail was written.
    Saved,
    /// The thumbnail could not be written.
    SaveFailed,
}

/// What a worker asks of its caller.
#[derive(Debug)]
pub enum WorkerAction {
    /// Decode the image at `source`.
    Decode { source: FilePath },
    /// Scale the decoded image to fit `max_width` by `max_height`, keeping
    /// its proportions, and write it to `target`.
    Save { target: FilePath, max_width: u32, max_height: u32 },
    /// Hand the outcome to the aggregator; the item is done.
    Retire { outcome: ProcessingOutcome },
}

/// The mathematical value of a `WorkerAction`.
pub enum ActionView {
    Decode { source: PathView },
    Save { target: PathView, max_width: nat, max_height: nat },
    Retire { outcome: ProcessingOutcome },
}

impl View for WorkerAction {
    type V = ActionView;

    open spec fn view(&self) -> ActionView {
        match self {
            WorkerAction::Decode { source } => ActionView::Decode { source: source@ },
            WorkerAction::Save { target, max_width, max_height } => ActionView::Save {
                target: target@,
                max_width: *max_width as nat,
                max_height: *max_height as nat,
            },
            WorkerAction::Retire { outcome } => ActionView::Retire { outcome: *outcome },
        }
    }
}

/// The state after `event` arrives in `state`. An answer to a question that
/// was not asked changes nothing.
pub open spec fn next_state(state: WorkerState, event: CodecEvent) -> WorkerState {
    match (state, event) {
        (WorkerState::Decoding, CodecEvent::Decoded) => WorkerState::Saving,
        (WorkerState::Decoding, CodecEvent::DecodeFailed) => WorkerState::Finished(
            ProcessingOutcome::DecodeFailure,
        ),
        (WorkerState::Saving, CodecEvent::Saved) => WorkerState::Finished(
            ProcessingOutcome::Success,
        ),
        (WorkerState::Saving, CodecEvent::SaveFailed) => WorkerState::Finished(
            ProcessingOutcome::WriteFailure,
        ),
        _ => state,
    }
}

/// What a worker on `item` asks for in `state`.
pub open spec fn action_in(item: WorkItemView, state: WorkerState) -> ActionView {
    match state {
        WorkerState::Decoding => ActionView::Decode { source: item.source },
        WorkerState::Saving => ActionView::Save {
            target: item.output_path(),
            max_width: THUMBNAIL_WIDTH as nat,
            max_height: THUMBNAIL_HEIGHT as nat,
        },
        WorkerState::Finished(outcome) => ActionView::Retire { outcome },
    }
}

/// The outcome of an item whose decoding and, if it came to that, whose
/// saving went as given.
pub open spec fn outcome_of(decoded: bool, saved: bool) -> ProcessingOutcome {
    if !decoded {
        ProcessingOutcome::DecodeFailure
    } else if saved {
        ProcessingOutcome::Success
    } else {
        ProcessingOutcome::WriteFailure
    }
}

/// A worker on one item.
#[derive(Debug)]
pub struct Worker {
    item: WorkItem,
    state: WorkerState,
}

impl Worker {
    /// The item this worker is on.
    pub closed spec fn item(self) -> WorkItemView {
        self.item@
    }

    /// Where the worker stands.
    pub closed spec fn state(self) -> WorkerState {
        self.state
    }

    /// Takes up `item`. The first thing the worker will ask for is to have
    /// the source decoded.
    pub fn begin(item: WorkItem) -> (worker: Worker)
        ensures
            worker.item() == item@,
            worker.state() == WorkerState::Decoding,
    {
        Worker { item, state: WorkerState::Decoding }
    }

    /// What the caller is to do now.
    pub fn pending(&self) -> (action: WorkerAction)
        ensures
            action@ == action_in(self.item(), self.state()),
    {
        match self.state {
            WorkerState::Decoding => WorkerAction::Decode { source: self.item.source.clone() },
            WorkerState::Saving => WorkerAction::Save {
                target: self.item.output_path(),
                max_width: THUMBNAIL_WIDTH,
                max_height: THUMBNAIL_HEIGHT,
            },
            WorkerState::Finished(outcome) => WorkerAction::Retire { outcome },
        }
    }

    /// Takes the codec's answer and moves on.
    pub fn handle(&mut self, event: CodecEvent)
        ensures
            final(self).item() == old(self).item(),
            final(self).state() == next_state(old(self).state(), event),
    {
        let next = match (self.state, event) {
            (WorkerState::Decoding, CodecEvent::Decoded) => WorkerState::Saving,
            (WorkerState::Decoding, CodecEvent::DecodeFailed) => WorkerState::Finished(
                ProcessingOutcome::DecodeFailure,
            ),
            (WorkerState::Saving, CodecEvent::Saved) => WorkerState::Finished(
                ProcessingOutcome::Success,
            ),
            (WorkerState::Saving, CodecEvent::SaveFailed) => WorkerState::Finished(
                ProcessingOutcome::WriteFailure,
            ),
            (state, _) => state,
        };
        self.state = next;
    }

    /// The outcome, once the item is retired.
    pub fn outcome(&self) -> (outcome: Option<ProcessingOutcome>)
        ensures
            outcome == match self.state() {
                WorkerState::Finished(o) => Some(o),
                _ => None,
            },
    {
        match self.state {
            WorkerState::Finished(o) => Some(o),
            _ => None,
        }
    }
}

/// A worker that is told the truth retires its item after one answer or two:
/// with a decode failure when the source does not decode, and else with a
/// success or a write failure as the saving went. It asks for a thumbnail to
/// be written only once the source has been decoded, and then to the item's
/// own output path and within the thumbnail bounds.
pub proof fn lemma_worker_run(item: WorkItemView, decoded: bool, saved: bool)
    ensures
        action_in(item, WorkerState::Decoding) == (ActionView::Decode { source: item.source }),
        !decoded ==> next_state(WorkerState::Decoding, CodecEvent::DecodeFailed)
            == WorkerState::Finished(outcome_of(decoded, saved)),
        decoded ==> action_in(item, next_state(WorkerState::Decoding, CodecEvent::Decoded)) == (
        ActionView::Save { target: item.output_path(), max_width: 64, max_height: 64 }),
        decoded ==> next_state(
            next_state(WorkerState::Decoding, CodecEvent::Decoded),
            if saved {
                CodecEvent::Saved
            } else {
                CodecEvent::SaveFailed
            },
        ) == WorkerState::Finished(outcome_of(decoded, saved)),
{
}

/// Once an item is retired, no answer brings it back.
pub proof fn lemma_finished_is_final(outcome: ProcessingOutcome, event: CodecEvent)
    ensures
        next_state(WorkerState::Finished(outcome), event) == WorkerState::Finished(outcome),
{
}

} // verus!
