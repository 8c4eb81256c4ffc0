//! The scheduler's shared state and the operations on it: enqueueing,
//! refreshing the wait interval, and the queue's side of a tick.

use vstd::prelude::*;
use crate::queue::{group_by_index, tagged, Document, UpsertQueue};
use crate::scheduler::{dispatches, plan_dispatch, Dispatch, Event, SchedulerState};
use crate::timing::{accepted_samples, JobRecord, UpsertTimingDatapoint};
use crate::window::{durations_of, refreshed, TimingWindow};
use crate::interval::interval_of;

verus! {

/// The scheduler's settings.
#[derive(Clone, Copy, Debug, PartialEq, Eq, Structural)]
pub struct Args {
    /// How many pending documents make a producer ask for an early flush.
    pub upsert_batch: usize,
    /// How many timing samples the wait interval is estimated from.
    pub upsert_interval_sample_size: usize,
    /// Send nothing downstream; only report what would be sent.
    pub dry_run: bool,
}

impl Default for Args {
    /// A batch of 1000, a sample size of 30, no dry run.
    fn default() -> (args: Args)
        ensures
            args.upsert_batch == 1000,
            args.upsert_interval_sample_size == 30,
            !args.dry_run,
    {
        Args { upsert_batch: 1000, upsert_interval_sample_size: 30, dry_run: false }
    }
}

/// The state that producers and the scheduler loop share.
pub struct Client {
    /// The flush-size threshold.
    pub upsert_batch: usize,
    /// Documents waiting for the next flush.
    pub upsert_queue: UpsertQueue,
    /// Durations of recent batch jobs.
    pub upsert_timing_set: TimingWindow,
}

impl Client {
    /// The timing window is well formed.
    pub open spec fn wf(&self) -> bool {
        self.upsert_timing_set.wf()
    }

    /// A client with nothing queued and nothing observed.
    pub fn new(args: &Args) -> (client: Client)
        ensures
            client.wf(),
            client.upsert_batch == args.upsert_batch,
            client.upsert_queue@ == Seq::<(String, Document)>::empty(),
            client.upsert_timing_set@ == Seq::<UpsertTimingDatapoint>::empty(),
            !client.upsert_timing_set.in_use(),
    {
        Client {
            upsert_batch: args.upsert_batch,
            upsert_queue: UpsertQueue::new(),
            upsert_timing_set: TimingWindow::new(),
        }
    }

    /// Enqueues `docs` for the index `idx`, in order, behind what is already
    /// pending.  Returns whether the flush trigger is to be fired: it is
    /// when the queue has reached the flush-size threshold.
    pub fn upsert_documents(&mut self, idx: String, docs: Vec<Document>) -> (fire: bool)
        ensures
            final(self).upsert_queue@ == old(self).upsert_queue@ + tagged(idx, docs@),
            fire == (final(self).upsert_queue@.len() >= old(self).upsert_batch),
            final(self).upsert_batch == old(self).upsert_batch,
            final(self).upsert_timing_set == old(self).upsert_timing_set,
    {
        self.upsert_queue.extend(idx, docs);
        self.upsert_queue.len() >= self.upsert_batch
    }

    /// Refreshes a timing window from the downstream job list, newest job
    /// first, and returns the interval to wait before the next look at the
    /// queue, in nanoseconds.
    ///
    /// Jobs that say nothing about a full batch are passed over.  Of the
    /// rest, those up to the first that did not finish after the oldest
    /// sample held are taken in; then the oldest samples are evicted until
    /// at most `sample_size` are left.
    pub fn update_upsert_interval(
        jobs: &Vec<JobRecord>,
        set: &mut TimingWindow,
        sample_size: usize,
        batch_size: usize,
    ) -> (interval: u128)
        requires
            old(set).wf(),
        ensures
            final(set).wf(),
            final(set)@ == refreshed(old(set)@, jobs@, sample_size, batch_size),
            interval == interval_of(durations_of(final(set)@)),
            final(set).in_use() == old(set).in_use(),
    {
        let samples = accepted_samples(jobs, batch_size);
        set.absorb(&samples, sample_size)
    }

    /// The queue's side of one tick.  Takes note of the event; if a flush
    /// is due, swaps the whole queue out and returns what the flush does
    /// with it, one batch per index.
    ///
    /// A flush is due while running if anything is pending, and always once
    /// a stop has been asked for.  In a dry run the batches are previews
    /// and nothing is to be sent; the queue is emptied all the same.
    pub fn tick(&mut self, state: SchedulerState, event: Event, dry_run: bool) -> (r: (
        SchedulerState,
        Option<Dispatch>,
    ))
        ensures
            r.0 == state.after_event(event),
            r.1 matches Some(dispatch) ==> (dry_run ==> dispatch.upserts@.len() == 0),
            final(self).upsert_batch == old(self).upsert_batch,
            final(self).upsert_timing_set == old(self).upsert_timing_set,
            match r.1 {
                Some(dispatch) => {
                    &&& r.0.flushes(old(self).upsert_queue@.len())
                    &&& dispatches(dispatch, old(self).upsert_queue@, dry_run)
                    &&& final(self).upsert_queue@ == Seq::<(String, Document)>::empty()
                },
                None => {
                    &&& !r.0.flushes(old(self).upsert_queue@.len())
                    &&& final(self).upsert_queue@ == old(self).upsert_queue@
                },
            },
    {
        let next = state.on_event(event);
        if !next.should_flush(self.upsert_queue.len()) {
            return (next, None);
        }
        let drained = self.upsert_queue.take();
        let batches = group_by_index(drained);
        (next, Some(plan_dispatch(batches, dry_run)))
    }
}

} // verus!
