//! The timing window: a bounded record of recent batch jobs, kept in the
//! order in which its samples would be evicted, last first.

use vstd::prelude::*;
use vstd::relations::sorted_by;
use vstd::seq_lib::{lemma_sorted_unique, to_multiset_insert};
use crate::error::SchedulerError;
use crate::interval::{interval_of, select_interval};
use crate::timing::{
    accepted,
    lemma_retention_order_total,
    retention_order,
    JobRecord,
    Timestamp,
    UpsertTimingDatapoint,
};

verus! {

/// Samples arranged as a window keeps them: longest-staying first, so the
/// next sample to be evicted is the last.
pub open spec fn ranked(samples: Seq<UpsertTimingDatapoint>) -> Seq<UpsertTimingDatapoint> {
    samples.sort_by(retention_order())
}

/// What is left of `samples` in a window of the given capacity: the
/// longest-staying ones.
pub open spec fn retained(samples: Seq<UpsertTimingDatapoint>, capacity: nat) -> Seq<
    UpsertTimingDatapoint,
> {
    if capacity < samples.len() {
        ranked(samples).take(capacity as int)
    } else {
        ranked(samples)
    }
}

/// The finish time of the sample that a window would evict next.
pub open spec fn oldest_of(window: Seq<UpsertTimingDatapoint>) -> Option<Timestamp> {
    if window.len() == 0 {
        None
    } else {
        Some(window.last().finished_at)
    }
}

/// A sample is fresh if it finished strictly after the cutoff, or if there
/// is no cutoff.
pub open spec fn is_fresh(sample: UpsertTimingDatapoint, cutoff: Option<Timestamp>) -> bool {
    match cutoff {
        Some(instant) => sample.finished_at.is_after(instant),
        None => true,
    }
}

/// Whether a sample is fresh with respect to the cutoff.
pub fn finished_after(sample: &UpsertTimingDatapoint, cutoff: Option<Timestamp>) -> (r: bool)
    ensures
        r == is_fresh(*sample, cutoff),
{
    match cutoff {
        Some(instant) => sample.finished_at.after(&instant),
        None => true,
    }
}

/// How many samples at the head of the list are fresh.
pub open spec fn fresh_count(samples: Seq<UpsertTimingDatapoint>, cutoff: Option<Timestamp>) -> nat
    decreases samples.len(),
{
    if samples.len() == 0 || !is_fresh(samples[0], cutoff) {
        0
    } else {
        1 + fresh_count(samples.drop_first(), cutoff)
    }
}

/// The samples of a newest-first list up to the first that is not fresh.
pub open spec fn fresh(samples: Seq<UpsertTimingDatapoint>, cutoff: Option<Timestamp>) -> Seq<
    UpsertTimingDatapoint,
> {
    samples.take(fresh_count(samples, cutoff) as int)
}

/// The durations of the samples, in the order of the samples.
pub open spec fn durations_of(samples: Seq<UpsertTimingDatapoint>) -> Seq<u128> {
    samples.map_values(|sample: UpsertTimingDatapoint| sample.duration)
}

/// A window after it has taken in a newest-first sample list and evicted
/// down to `sample_size`.
pub open spec fn absorbed(
    window: Seq<UpsertTimingDatapoint>,
    samples: Seq<UpsertTimingDatapoint>,
    sample_size: nat,
) -> Seq<UpsertTimingDatapoint> {
    retained(window + fresh(samples, oldest_of(window)), sample_size)
}

/// A window after a refresh from a newest-first job list: the jobs are
/// filtered down to the samples they contribute, and those are taken in.
pub open spec fn refreshed(
    window: Seq<UpsertTimingDatapoint>,
    jobs: Seq<JobRecord>,
    sample_size: usize,
    batch_size: usize,
) -> Seq<UpsertTimingDatapoint> {
    absorbed(window, accepted(jobs, batch_size), sample_size as nat)
}

/// A window after `samples` have been inserted into it one by one, in the
/// order of the list.
pub open spec fn filled(
    window: Seq<UpsertTimingDatapoint>,
    samples: Seq<UpsertTimingDatapoint>,
) -> Seq<UpsertTimingDatapoint>
    decreases samples.len(),
{
    if samples.len() == 0 {
        window
    } else {
        filled(ranked(window.push(samples[0])), samples.drop_first())
    }
}

/// The fresh head of a list never runs past its end.
pub proof fn lemma_fresh_count_bounded(
    samples: Seq<UpsertTimingDatapoint>,
    cutoff: Option<Timestamp>,
)
    ensures
        fresh_count(samples, cutoff) <= samples.len(),
    decreases samples.len(),
{
    if samples.len() > 0 && is_fresh(samples[0], cutoff) {
        lemma_fresh_count_bounded(samples.drop_first(), cutoff);
    }
}

/// A head of fresh samples that ends at the list's end, or before a sample
/// that is not fresh, is the whole fresh head.
pub proof fn lemma_fresh_count_is(
    samples: Seq<UpsertTimingDatapoint>,
    cutoff: Option<Timestamp>,
    n: int,
)
    requires
        0 <= n <= samples.len(),
        forall|i: int| 0 <= i < n ==> is_fresh(#[trigger] samples[i], cutoff),
        n == samples.len() || !is_fresh(samples[n], cutoff),
    ensures
        fresh_count(samples, cutoff) == n,
    decreases samples.len(),
{
    if n > 0 {
        let rest = samples.drop_first();
        assert forall|i: int| 0 <= i < n - 1 implies is_fresh(#[trigger] rest[i], cutoff) by {
            assert(rest[i] == samples[i + 1]);
        }
        lemma_fresh_count_is(rest, cutoff, n - 1);
    }
}

/// Samples with the same members rank alike, however they are listed.
pub proof fn lemma_ranked_by_members(
    a: Seq<UpsertTimingDatapoint>,
    b: Seq<UpsertTimingDatapoint>,
)
    requires
        a.to_multiset() == b.to_multiset(),
    ensures
        ranked(a) == ranked(b),
{
    lemma_retention_order_total();
    a.lemma_sort_by_ensures(retention_order());
    b.lemma_sort_by_ensures(retention_order());
    lemma_sorted_unique(ranked(a), ranked(b), retention_order());
}

/// Ranking keeps every sample, and a ranked list is its own ranking.
pub proof fn lemma_ranked_properties(samples: Seq<UpsertTimingDatapoint>)
    ensures
        ranked(samples).len() == samples.len(),
        ranked(samples).to_multiset() == samples.to_multiset(),
        sorted_by(ranked(samples), retention_order()),
        sorted_by(samples, retention_order()) ==> ranked(samples) == samples,
{
    lemma_retention_order_total();
    samples.lemma_sort_by_ensures(retention_order());
    samples.to_multiset_ensures();
    ranked(samples).to_multiset_ensures();
    if sorted_by(samples, retention_order()) {
        lemma_sorted_unique(ranked(samples), samples, retention_order());
    }
}

/// What a claim on a window comes to: it fails at once if the window is
/// already in use.
pub open spec fn claim_outcome(in_use: bool) -> Result<(), SchedulerError> {
    if in_use {
        Err(SchedulerError::ReentrancyDetected)
    } else {
        Ok(())
    }
}

/// A bounded record of recent batch jobs.
pub struct TimingWindow {
    samples: Vec<UpsertTimingDatapoint>,
    in_use: bool,
}

impl View for TimingWindow {
    type V = Seq<UpsertTimingDatapoint>;

    /// The samples held, longest-staying first.
    closed spec fn view(&self) -> Seq<UpsertTimingDatapoint> {
        self.samples@
    }
}

impl TimingWindow {
    /// The samples are held in retention order.
    pub open spec fn wf(&self) -> bool {
        sorted_by(self@, retention_order())
    }


    /// A scheduler loop is using the window.
    pub closed spec fn in_use(&self) -> bool {
        self.in_use
    }

    /// An empty window that no loop is using.
    pub fn new() -> (window: TimingWindow)
        ensures
            window@ == Seq::<UpsertTimingDatapoint>::empty(),
            window.wf(),
            !window.in_use(),
    {
        TimingWindow { samples: Vec::new(), in_use: false }
    }

    /// Checks that the samples are held in retention order.  Every window
    /// made and changed by the operations of this type passes.
    pub fn is_well_formed(&self) -> (r: bool)
        ensures
            r == self.wf(),
    {
        let mut i: usize = 1;
        while i < self.samples.len()
            invariant
                1 <= i,
                forall|a: int, b: int|
                    0 <= a < b < i && b < self.samples@.len() ==> retention_order()(
                        #[trigger] self.samples@[a],
                        #[trigger] self.samples@[b],
                    ),
            decreases self.samples.len() - i,
        {
            if !self.samples[i - 1].stays_no_shorter_than(&self.samples[i]) {
                proof {
                    assert(!retention_order()(self.samples@[i - 1], self.samples@[i as int]));
                }
                return false;
            }
            proof {
                lemma_retention_order_total();
                assert forall|a: int, b: int| 0 <= a < b < i + 1 && b < self.samples@.len() implies retention_order()(
                    #[trigger] self.samples@[a],
                    #[trigger] self.samples@[b],
                ) by {
                    if b == i && a < i - 1 {
                        assert(retention_order()(self.samples@[a], self.samples@[i - 1]));
                        assert(retention_order()(self.samples@[i - 1], self.samples@[i as int]));
                    }
                }
            }
            i += 1;
        }
        true
    }

    /// The number of samples held.
    pub fn len(&self) -> (n: usize)
        ensures
            n == self@.len(),
    {
        self.samples.len()
    }

    /// The sample at `position`, counting from the longest-staying.
    pub fn get(&self, position: usize) -> (sample: Option<UpsertTimingDatapoint>)
        ensures
            sample == if position < self@.len() {
                Some(self@[position as int])
            } else {
                None
            },
    {
        if position < self.samples.len() {
            Some(self.samples[position])
        } else {
            None
        }
    }

    /// The finish time of the sample that would be evicted next: the cutoff
    /// for the next refresh.
    pub fn oldest(&self) -> (cutoff: Option<Timestamp>)
        ensures
            cutoff == oldest_of(self@),
    {
        let n = self.samples.len();
        if n == 0 {
            None
        } else {
            Some(self.samples[n - 1].finished_at)
        }
    }

    /// Claims the window for one scheduler loop.  A window that is already
    /// claimed is left as it is and the claim fails at once.
    pub fn try_acquire(&mut self) -> (r: Result<(), SchedulerError>)
        ensures
            final(self)@ == old(self)@,
            final(self).in_use(),
            r == claim_outcome(old(self).in_use()),
    {
        if self.in_use {
            Err(SchedulerError::ReentrancyDetected)
        } else {
            self.in_use = true;
            Ok(())
        }
    }

    /// Gives the window up again.  The samples stay.
    pub fn release(&mut self)
        ensures
            final(self)@ == old(self)@,
            !final(self).in_use(),
    {
        self.in_use = false;
    }

    /// Adds one sample at its place in the retention order.
    pub fn insert(&mut self, sample: UpsertTimingDatapoint)
        requires
            old(self).wf(),
        ensures
            final(self).wf(),
            final(self)@ == ranked(old(self)@.push(sample)),
            final(self).in_use() == old(self).in_use(),
    {
        let mut at: usize = 0;
        while at < self.samples.len() && !sample.stays_no_shorter_than(&self.samples[at])
            invariant
                at <= self.samples.len(),
                self.samples == old(self).samples,
                self.in_use == old(self).in_use,
                forall|k: int| 0 <= k < at ==> !sample.outlasts(#[trigger] self.samples@[k]),
            decreases self.samples.len() - at,
        {
            at += 1;
        }
        proof {
            let order = retention_order();
            let before = self.samples@;
            let after = before.insert(at as int, sample);
            lemma_retention_order_total();
            to_multiset_insert(before, at as int, sample);
            before.to_multiset_ensures();
            assert forall|a: int, b: int| 0 <= a < b < after.len() implies #[trigger] order(
                after[a],
                after[b],
            ) by {
                if b < at {
                    assert(order(before[a], before[b]));
                } else if b == at {
                    assert(!sample.outlasts(before[a]));
                } else if a < at {
                    assert(order(before[a], before[b - 1]));
                } else if a == at {
                    if at as int != b - 1 {
                        assert(order(before[at as int], before[b - 1]));
                    }
                } else {
                    assert(order(before[a - 1], before[b - 1]));
                }
            }
            lemma_ranked_properties(before.push(sample));
            lemma_sorted_unique(after, ranked(before.push(sample)), order);
        }
        self.samples.insert(at, sample);
    }

    /// Evicts samples, soonest-to-leave first, until at most `capacity` are
    /// left.
    pub fn trim(&mut self, capacity: usize)
        requires
            old(self).wf(),
        ensures
            final(self).wf(),
            final(self)@ == retained(old(self)@, capacity as nat),
            final(self).in_use() == old(self).in_use(),
    {
        proof {
            lemma_ranked_properties(self.samples@);
        }
        self.samples.truncate(capacity);
    }

    /// The durations of the samples held, in the order of the samples.
    pub fn durations(&self) -> (durations: Vec<u128>)
        ensures
            durations@ == durations_of(self@),
    {
        let mut durations: Vec<u128> = Vec::new();
        let mut i: usize = 0;
        while i < self.samples.len()
            invariant
                i <= self.samples.len(),
                durations@ == durations_of(self.samples@.take(i as int)),
            decreases self.samples.len() - i,
        {
            durations.push(self.samples[i].duration);
            proof {
                assert(durations@ == durations_of(self.samples@.take(i + 1)));
            }
            i += 1;
        }
        proof {
            assert(self.samples@.take(i as int) == self.samples@);
        }
        durations
    }

    /// The wait interval that the samples held call for.
    pub fn interval(&self) -> (interval: u128)
        ensures
            interval == interval_of(durations_of(self@)),
    {
        let durations = self.durations();
        select_interval(&durations)
    }

    /// Takes in the fresh head of a newest-first sample list, evicts down to
    /// `sample_size`, and returns the wait interval that the window then
    /// calls for.  The cutoff for freshness is the finish time of the sample
    /// that the window would have evicted next.
    pub fn absorb(&mut self, samples: &Vec<UpsertTimingDatapoint>, sample_size: usize) -> (interval:
        u128)
        requires
            old(self).wf(),
        ensures
            final(self).wf(),
            final(self)@ == absorbed(old(self)@, samples@, sample_size as nat),
            interval == interval_of(durations_of(final(self)@)),
            final(self).in_use() == old(self).in_use(),
    {
        let cutoff = self.oldest();
        let mut i: usize = 0;
        proof {
            assert(old(self)@ + samples@.take(0) == old(self)@);
            lemma_ranked_properties(old(self)@);
        }
        while i < samples.len() && finished_after(&samples[i], cutoff)
            invariant
                i <= samples.len(),
                cutoff == oldest_of(old(self)@),
                self.wf(),
                self.in_use() == old(self).in_use(),
                self@ == ranked(old(self)@ + samples@.take(i as int)),
                forall|k: int| 0 <= k < i ==> is_fresh(#[trigger] samples@[k], cutoff),
            decreases samples.len() - i,
        {
            proof {
                let taken = old(self)@ + samples@.take(i as int);
                assert(old(self)@ + samples@.take(i + 1) == taken.push(samples@[i as int]));
                lemma_ranked_properties(taken);
                ranked(taken).to_multiset_ensures();
                taken.to_multiset_ensures();
                lemma_ranked_by_members(ranked(taken).push(samples@[i as int]), taken.push(samples@[i as int]));
            }
            self.insert(samples[i]);
            i += 1;
        }
        proof {
            lemma_fresh_count_is(samples@, cutoff, i as int);
            lemma_ranked_properties(old(self)@ + samples@.take(i as int));
            lemma_ranked_properties(self@);
        }
        self.trim(sample_size);
        self.interval()
    }
}

} // verus!
