//! The scheduler loop as a state machine: what each wake-up means, when a
//! flush runs, what a flush sends, and how a run ends.

use vstd::prelude::*;
use crate::error::{EnqueueError, SchedulerError};
use crate::queue::{is_grouping, Document, IndexBatch};

verus! {

/// What woke the scheduler loop.
#[derive(Clone, Copy, Debug, PartialEq, Eq, Structural)]
pub enum Event {
    /// A producer fired the flush trigger.
    Triggered,
    /// The trigger can never fire again: every producer handle is gone.
    TriggerClosed,
    /// The stop signal was received.
    StopRequested,
    /// The stop signal can never arrive: its sender is gone.
    StopSignalLost,
    /// The wait interval elapsed.
    Tick,
}

/// Why the scheduler loop is coming to an end.
#[derive(Clone, Copy, Debug, PartialEq, Eq, Structural)]
pub enum StopReason {
    TriggerClosed,
    StopRequested,
    /// Reading the stop signal failed; the loop stops all the same, rather
    /// than run on with no way to be stopped.
    StopSignalLost,
}

/// Where the scheduler loop stands.
#[derive(Clone, Copy, Debug, PartialEq, Eq, Structural)]
pub enum SchedulerState {
    /// Waiting for events and flushing whenever there is work.
    Running,
    /// A stop was asked for; the final flush is still to be completed.
    Draining(StopReason),
    /// The final flush is done.  Nothing more happens.
    Stopped(StopReason),
}

/// The stop that an event asks for, if it asks for one.
pub open spec fn stop_reason_of(event: Event) -> Option<StopReason> {
    match event {
        Event::Triggered => None,
        Event::Tick => None,
        Event::TriggerClosed => Some(StopReason::TriggerClosed),
        Event::StopRequested => Some(StopReason::StopRequested),
        Event::StopSignalLost => Some(StopReason::StopSignalLost),
    }
}

/// Classifies an event: an ordinary wake-up, or a reason to stop.
pub fn classify(event: Event) -> (reason: Option<StopReason>)
    ensures
        reason == stop_reason_of(event),
{
    match event {
        Event::Triggered => None,
        Event::Tick => None,
        Event::TriggerClosed => Some(StopReason::TriggerClosed),
        Event::StopRequested => Some(StopReason::StopRequested),
        Event::StopSignalLost => Some(StopReason::StopSignalLost),
    }
}

impl SchedulerState {
    /// The state after an event is observed.  Only a running loop observes
    /// events.
    pub open spec fn after_event(self, event: Event) -> SchedulerState {
        match self {
            SchedulerState::Running => match stop_reason_of(event) {
                Some(reason) => SchedulerState::Draining(reason),
                None => SchedulerState::Running,
            },
            _ => self,
        }
    }

    /// Whether a drain-and-dispatch pass runs in this state with `queued`
    /// entries pending: while running, if there is work; while draining,
    /// always; once stopped, never.
    pub open spec fn flushes(self, queued: nat) -> bool {
        match self {
            SchedulerState::Running => queued > 0,
            SchedulerState::Draining(_) => true,
            SchedulerState::Stopped(_) => false,
        }
    }

    /// The state after a flush has gone through.
    pub open spec fn after_flush(self) -> SchedulerState {
        match self {
            SchedulerState::Draining(reason) => SchedulerState::Stopped(reason),
            _ => self,
        }
    }

    /// Takes note of an event.
    pub fn on_event(self, event: Event) -> (next: SchedulerState)
        ensures
            next == self.after_event(event),
    {
        match self {
            SchedulerState::Running => match classify(event) {
                Some(reason) => SchedulerState::Draining(reason),
                None => SchedulerState::Running,
            },
            _ => self,
        }
    }

    /// Whether a drain-and-dispatch pass runs now.
    pub fn should_flush(&self, queued: usize) -> (r: bool)
        ensures
            r == self.flushes(queued as nat),
    {
        match self {
            SchedulerState::Running => queued > 0,
            SchedulerState::Draining(_) => true,
            SchedulerState::Stopped(_) => false,
        }
    }

    /// Whether the loop has come to its end.
    pub fn is_stopped(&self) -> (r: bool)
        ensures
            r == (*self is Stopped),
    {
        match self {
            SchedulerState::Stopped(_) => true,
            _ => false,
        }
    }
}

/// What became of an attempt to set the flush trigger.
#[derive(Clone, Copy, Debug, PartialEq, Eq, Structural)]
pub enum TriggerOutcome {
    /// The signal was set.
    Sent,
    /// A signal was already pending; the two coalesce.
    AlreadyPending,
    /// The trigger is closed.
    Closed,
}

/// What an enqueue call reports for a trigger attempt.  A signal that was
/// already pending is a success; only a closed trigger is an error.
pub fn trigger_result(outcome: TriggerOutcome) -> (r: Result<(), EnqueueError>)
    ensures
        r == match outcome {
            TriggerOutcome::Sent => Ok::<(), EnqueueError>(()),
            TriggerOutcome::AlreadyPending => Ok::<(), EnqueueError>(()),
            TriggerOutcome::Closed => Err::<(), EnqueueError>(EnqueueError::TriggerUnavailable),
        },
{
    match outcome {
        TriggerOutcome::Sent => Ok(()),
        TriggerOutcome::AlreadyPending => Ok(()),
        TriggerOutcome::Closed => Err(EnqueueError::TriggerUnavailable),
    }
}

/// What one flush does with its batches: `upserts` are sent to the
/// downstream service, one call for each; `previews` are only reported.
#[derive(Debug)]
pub struct Dispatch {
    pub upserts: Vec<IndexBatch>,
    pub previews: Vec<IndexBatch>,
}

/// `dispatch` is what a flush of `entries` does: in a dry run every batch is
/// a preview and nothing is sent; otherwise every batch is sent.
pub open spec fn dispatches(
    dispatch: Dispatch,
    entries: Seq<(String, Document)>,
    dry_run: bool,
) -> bool {
    if dry_run {
        dispatch.upserts@.len() == 0 && is_grouping(dispatch.previews@, entries)
    } else {
        dispatch.previews@.len() == 0 && is_grouping(dispatch.upserts@, entries)
    }
}

/// Decides what a flush does with its batches.
pub fn plan_dispatch(batches: Vec<IndexBatch>, dry_run: bool) -> (dispatch: Dispatch)
    ensures
        dispatch.upserts@ == if dry_run {
            Seq::<IndexBatch>::empty()
        } else {
            batches@
        },
        dispatch.previews@ == if dry_run {
            batches@
        } else {
            Seq::<IndexBatch>::empty()
        },
{
    if dry_run {
        Dispatch { upserts: Vec::new(), previews: batches }
    } else {
        Dispatch { upserts: batches, previews: Vec::new() }
    }
}

/// Every call of a flush succeeded.
pub open spec fn all_succeeded(outcomes: Seq<bool>) -> bool {
    forall|i: int| 0 <= i < outcomes.len() ==> outcomes[i]
}

/// How a flush ends, given whether each of its calls succeeded: one failed
/// call fails the flush; otherwise the loop moves on.
pub open spec fn concluded(state: SchedulerState, outcomes: Seq<bool>) -> Result<
    SchedulerState,
    SchedulerError,
> {
    if all_succeeded(outcomes) {
        Ok(state.after_flush())
    } else {
        Err(SchedulerError::DownstreamCallFailed)
    }
}

/// Ends a flush once all of its calls have returned.
pub fn conclude(state: SchedulerState, outcomes: &Vec<bool>) -> (r: Result<
    SchedulerState,
    SchedulerError,
>)
    ensures
        r == concluded(state, outcomes@),
{
    let mut i: usize = 0;
    while i < outcomes.len()
        invariant
            i <= outcomes.len(),
            forall|k: int| 0 <= k < i ==> outcomes@[k],
        decreases outcomes.len() - i,
    {
        if !outcomes[i] {
            return Err(SchedulerError::DownstreamCallFailed);
        }
        i += 1;
    }
    match state {
        SchedulerState::Draining(reason) => Ok(SchedulerState::Stopped(reason)),
        _ => Ok(state),
    }
}

/// Seconds to wait before a crashed loop is started again.
pub const RESTART_COOLDOWN_SECS: u64 = 5;

/// What the supervisor does when a run of the loop has ended.
#[derive(Clone, Copy, Debug, PartialEq, Eq, Structural)]
pub enum SupervisorAction {
    /// The loop stopped cleanly: supervision ends.
    Finish,
    /// The loop crashed: wait, then start it again.
    Restart { cooldown_secs: u64 },
    /// The loop found the timing window in use by another loop.  That is a
    /// defect, not a passing condition: supervision ends without a retry.
    Abort,
}

/// The supervisor's decision for each way a run can end.
pub open spec fn supervision(outcome: Result<(), SchedulerError>) -> SupervisorAction {
    match outcome {
        Ok(_) => SupervisorAction::Finish,
        Err(SchedulerError::ReentrancyDetected) => SupervisorAction::Abort,
        Err(_) => SupervisorAction::Restart { cooldown_secs: RESTART_COOLDOWN_SECS },
    }
}

/// Decides what follows a run of the loop.
pub fn supervise(outcome: Result<(), SchedulerError>) -> (action: SupervisorAction)
    ensures
        action == supervision(outcome),
{
    match outcome {
        Ok(_) => SupervisorAction::Finish,
        Err(SchedulerError::ReentrancyDetected) => SupervisorAction::Abort,
        Err(_) => SupervisorAction::Restart { cooldown_secs: RESTART_COOLDOWN_SECS },
    }
}

} // verus!
