//! Timing samples: what the scheduler remembers of a completed indexing job,
//! and which jobs are worth remembering.

use vstd::prelude::*;

verus! {

/// Nanoseconds in one second.
pub const NANOS_PER_SEC: u128 = 1_000_000_000;

/// An instant in UTC: whole seconds since the Unix epoch and the nanoseconds
/// past that second.  Instants are ordered by `secs`, then by `nanos`.
#[derive(Clone, Copy, Debug, PartialEq, Eq, Structural)]
pub struct Timestamp {
    pub secs: i64,
    pub nanos: u32,
}

impl Timestamp {
    /// `self` lies strictly after `other`.
    pub open spec fn is_after(self, other: Timestamp) -> bool {
        self.secs > other.secs || (self.secs == other.secs && self.nanos > other.nanos)
    }

    /// Whether `self` lies strictly after `other`.
    pub fn after(&self, other: &Timestamp) -> (r: bool)
        ensures
            r == self.is_after(*other),
    {
        self.secs > other.secs || (self.secs == other.secs && self.nanos > other.nanos)
    }
}

/// One completed batch job: when it finished and how long it took, in
/// nanoseconds.
#[derive(Clone, Copy, Debug, PartialEq, Eq, Structural)]
pub struct UpsertTimingDatapoint {
    pub finished_at: Timestamp,
    pub duration: u128,
}

impl UpsertTimingDatapoint {
    /// `self` stays in a window at least as long as `other`: it finished
    /// later, or at the same instant and took at least as long.  The sample
    /// that outlasts no other is the first to be evicted.
    pub open spec fn outlasts(self, other: UpsertTimingDatapoint) -> bool {
        self.finished_at.is_after(other.finished_at) || (self.finished_at == other.finished_at
            && self.duration >= other.duration)
    }

    /// Whether `self` stays in a window at least as long as `other`.
    pub fn stays_no_shorter_than(&self, other: &UpsertTimingDatapoint) -> (r: bool)
        ensures
            r == self.outlasts(*other),
    {
        self.finished_at.after(&other.finished_at) || (self.finished_at.secs
            == other.finished_at.secs && self.finished_at.nanos == other.finished_at.nanos
            && self.duration >= other.duration)
    }
}

/// The order in which a window keeps its samples: longest-staying first.
pub open spec fn retention_order() -> spec_fn(UpsertTimingDatapoint, UpsertTimingDatapoint) -> bool {
    |a: UpsertTimingDatapoint, b: UpsertTimingDatapoint| a.outlasts(b)
}

/// The retention order is total: any two samples compare, and samples that
/// outlast each other are the same sample.
pub proof fn lemma_retention_order_total()
    ensures
        vstd::relations::total_ordering(retention_order()),
{
    let r = retention_order();
    assert(vstd::relations::reflexive(r));
    assert(vstd::relations::antisymmetric(r));
    assert(vstd::relations::transitive(r));
    assert(vstd::relations::strongly_connected(r));
}

/// How a job ended.
#[derive(Clone, Copy, Debug, PartialEq, Eq, Structural)]
pub enum JobStatus {
    Succeeded,
    Failed,
    /// Still enqueued or being processed.
    Unfinished,
}

/// What a job did.
#[derive(Clone, Copy, Debug, PartialEq, Eq, Structural)]
pub enum JobKind {
    DocumentAddition,
    Other,
}

/// One entry of the downstream service's job list.
#[derive(Clone, Copy, Debug, PartialEq, Eq, Structural)]
pub struct JobRecord {
    pub status: JobStatus,
    pub kind: JobKind,
    /// Completion time, in nanoseconds since the Unix epoch.
    pub finished_at_nanos: i128,
    /// Processing time, in nanoseconds.
    pub duration: u128,
    /// For a document addition, how many documents it indexed, if reported.
    pub indexed_documents: Option<usize>,
}

impl JobRecord {
    /// The job says something about a full batch: it succeeded, it added
    /// documents, and it indexed at least half a batch of them.
    pub open spec fn representative(self, batch_size: usize) -> bool {
        &&& self.status == JobStatus::Succeeded
        &&& self.kind == JobKind::DocumentAddition
        &&& self.indexed_documents matches Some(count)
        &&& count >= batch_size / 2
    }

    /// Whether the job says something about a full batch.
    pub fn is_representative(&self, batch_size: usize) -> (r: bool)
        ensures
            r == self.representative(batch_size),
    {
        match (self.status, self.kind, self.indexed_documents) {
            (JobStatus::Succeeded, JobKind::DocumentAddition, Some(count)) => count >= batch_size
                / 2,
            _ => false,
        }
    }
}

/// The whole seconds of a nanosecond count, rounded toward zero.
pub open spec fn whole_seconds(nanos: int) -> int {
    if nanos >= 0 {
        nanos / 1_000_000_000
    } else {
        -((-nanos) / 1_000_000_000)
    }
}

/// The nanoseconds past the last whole second at or before the instant:
/// always in `0..1_000_000_000`.
pub open spec fn subsecond_nanos(nanos: int) -> int {
    nanos % 1_000_000_000
}

/// A nanosecond count split into seconds and sub-second nanoseconds, if the
/// seconds fit in 64 bits.
pub open spec fn split_nanos(nanos: i128) -> Option<(i64, u32)> {
    let secs = whole_seconds(nanos as int);
    if i64::MIN <= secs <= i64::MAX {
        Some((secs as i64, subsecond_nanos(nanos as int) as u32))
    } else {
        None
    }
}

/// Splits a nanosecond count into seconds and sub-second nanoseconds.
pub fn split_timestamp(nanos: i128) -> (r: Option<(i64, u32)>)
    ensures
        r == split_nanos(nanos),
        r matches Some((_, n)) ==> n < NANOS_PER_SEC,
{
    if nanos >= 0 {
        let whole: i128 = nanos / 1_000_000_000;
        let part: i128 = nanos % 1_000_000_000;
        if whole > i64::MAX as i128 {
            None
        } else {
            Some((whole as i64, part as u32))
        }
    } else if nanos < -9_223_372_036_854_775_808_999_999_999 {
        None
    } else {
        let magnitude: i128 = -nanos;
        let whole: i128 = magnitude / 1_000_000_000;
        let part: i128 = magnitude % 1_000_000_000;
        let secs: i128 = -whole;
        let sub: i128 = if part == 0 {
            0
        } else {
            1_000_000_000 - part
        };
        Some((secs as i64, sub as u32))
    }
}

/// Whether the calendar can represent the instant `secs` seconds and `nanos`
/// nanoseconds after the Unix epoch as a UTC date and time.
pub uninterp spec fn utc_representable(secs: i64, nanos: u32) -> bool;

/// chrono's `DateTime::from_timestamp`, read back through `timestamp` and
/// `timestamp_subsec_nanos`.  Trusted: chrono yields a date and time exactly
/// for the representable instants, and the instant it yields reads back as
/// the seconds and nanoseconds it was made from.
#[verifier::external_body]
fn utc_timestamp(secs: i64, nanos: u32) -> (r: Option<Timestamp>)
    ensures
        r == if utc_representable(secs, nanos) {
            Some(Timestamp { secs, nanos })
        } else {
            None
        },
{
    match chrono::DateTime::from_timestamp(secs, nanos) {
        Some(at) => Some(Timestamp { secs: at.timestamp(), nanos: at.timestamp_subsec_nanos() }),
        None => None,
    }
}

/// The instant at which a job finished, if its nanosecond count names one the
/// calendar can represent.
pub open spec fn finish_instant(finished_at_nanos: i128) -> Option<Timestamp> {
    match split_nanos(finished_at_nanos) {
        Some((secs, nanos)) => if utc_representable(secs, nanos) {
            Some(Timestamp { secs, nanos })
        } else {
            None
        },
        None => None,
    }
}

/// The timing sample that a job contributes, given the instant at which it
/// finished, if there is such an instant: none unless the job is
/// representative and the instant exists.
pub open spec fn sample_at(job: JobRecord, batch_size: usize, finished_at: Option<Timestamp>) -> Option<
    UpsertTimingDatapoint,
> {
    match finished_at {
        Some(finished_at) => if job.representative(batch_size) {
            Some(UpsertTimingDatapoint { finished_at, duration: job.duration })
        } else {
            None
        },
        None => None,
    }
}

/// The timing sample that a job contributes: none unless the job is
/// representative and finished at a representable instant.
pub open spec fn datapoint_of(job: JobRecord, batch_size: usize) -> Option<UpsertTimingDatapoint> {
    sample_at(job, batch_size, finish_instant(job.finished_at_nanos))
}

/// The samples that a job list contributes, in the order of the list.
pub open spec fn accepted(jobs: Seq<JobRecord>, batch_size: usize) -> Seq<UpsertTimingDatapoint>
    decreases jobs.len(),
{
    if jobs.len() == 0 {
        Seq::empty()
    } else {
        let earlier = accepted(jobs.drop_last(), batch_size);
        match datapoint_of(jobs.last(), batch_size) {
            Some(sample) => earlier.push(sample),
            None => earlier,
        }
    }
}

/// The instant at which a job finished, from its nanosecond count.
pub fn finished_at(finished_at_nanos: i128) -> (r: Option<Timestamp>)
    ensures
        r == finish_instant(finished_at_nanos),
{
    match split_timestamp(finished_at_nanos) {
        Some((secs, nanos)) => utc_timestamp(secs, nanos),
        None => None,
    }
}

impl JobRecord {
    /// The timing sample that this job contributes once the instant at
    /// which it finished is known, or known not to exist.
    pub fn sample_finished_at(&self, batch_size: usize, finished_at: Option<Timestamp>) -> (r:
        Option<UpsertTimingDatapoint>)
        ensures
            r == sample_at(*self, batch_size, finished_at),
    {
        match finished_at {
            Some(finished_at) => if self.is_representative(batch_size) {
                Some(UpsertTimingDatapoint { finished_at, duration: self.duration })
            } else {
                None
            },
            None => None,
        }
    }

    /// The timing sample that this job contributes, if any.  A job with a
    /// malformed completion time is passed over, not reported.
    pub fn datapoint(&self, batch_size: usize) -> (r: Option<UpsertTimingDatapoint>)
        ensures
            r == datapoint_of(*self, batch_size),
    {
        self.sample_finished_at(batch_size, finished_at(self.finished_at_nanos))
    }
}

/// Filters a job list down to the timing samples it contributes, keeping
/// the order of the list.
pub fn accepted_samples(jobs: &Vec<JobRecord>, batch_size: usize) -> (samples: Vec<
    UpsertTimingDatapoint,
>)
    ensures
        samples@ == accepted(jobs@, batch_size),
{
    let mut samples: Vec<UpsertTimingDatapoint> = Vec::new();
    let mut i: usize = 0;
    while i < jobs.len()
        invariant
            i <= jobs.len(),
            samples@ == accepted(jobs@.take(i as int), batch_size),
        decreases jobs.len() - i,
    {
        proof {
            assert(jobs@.take(i + 1).drop_last() == jobs@.take(i as int));
        }
        match jobs[i].datapoint(batch_size) {
            Some(sample) => samples.push(sample),
            None => {},
        }
        i += 1;
    }
    proof {
        assert(jobs@.take(i as int) == jobs@);
    }
    samples
}

} // verus!
