//! Laws: what holds across several operations of the scheduler.

use vstd::prelude::*;
use vstd::relations::sorted_by;
use crate::error::SchedulerError;
use crate::queue::{documents_for, index_names, is_grouping, lemma_index_names, Document, IndexBatch};
use crate::scheduler::{
    all_succeeded,
    concluded,
    stop_reason_of,
    supervision,
    Event,
    SchedulerState,
    SupervisorAction,
};
use crate::interval::interval_of;
use crate::timing::{
    accepted,
    lemma_retention_order_total,
    retention_order,
    JobRecord,
    UpsertTimingDatapoint,
};
use crate::window::{
    absorbed,
    claim_outcome,
    durations_of,
    refreshed,
    filled,
    fresh,
    fresh_count,
    is_fresh,
    lemma_fresh_count_bounded,
    lemma_ranked_by_members,
    lemma_ranked_properties,
    oldest_of,
    ranked,
    retained,
};

verus! {

/// Inserting samples one by one into a window in retention order gives the
/// ranking of the old and the new samples together.
pub proof fn law_filling_ranks_all(
    window: Seq<UpsertTimingDatapoint>,
    samples: Seq<UpsertTimingDatapoint>,
)
    requires
        sorted_by(window, retention_order()),
    ensures
        filled(window, samples) == ranked(window + samples),
    decreases samples.len(),
{
    if samples.len() == 0 {
        assert(window + samples == window);
        lemma_ranked_properties(window);
    } else {
        let first = window.push(samples[0]);
        let rest = samples.drop_first();
        lemma_ranked_properties(first);
        law_filling_ranks_all(ranked(first), rest);
        assert(first + rest == window + samples);
        vstd::seq_lib::lemma_multiset_commutative(ranked(first), rest);
        vstd::seq_lib::lemma_multiset_commutative(first, rest);
        lemma_ranked_by_members(ranked(first) + rest, first + rest);
    }
}

/// The order in which samples are inserted does not matter: two lists of
/// the same samples fill a window alike.
pub proof fn law_insertion_order_is_irrelevant(
    window: Seq<UpsertTimingDatapoint>,
    one: Seq<UpsertTimingDatapoint>,
    other: Seq<UpsertTimingDatapoint>,
)
    requires
        sorted_by(window, retention_order()),
        one.to_multiset() == other.to_multiset(),
    ensures
        filled(window, one) == filled(window, other),
{
    law_filling_ranks_all(window, one);
    law_filling_ranks_all(window, other);
    vstd::seq_lib::lemma_multiset_commutative(window, one);
    vstd::seq_lib::lemma_multiset_commutative(window, other);
    lemma_ranked_by_members(window + one, window + other);
}

/// Eviction keeps the most recent samples.  Let `samples` list samples by
/// strictly increasing finish time, and let `inserted` hold the same samples
/// in any order.  Filling an empty window from `inserted` and evicting down
/// to a capacity below their number leaves exactly the `capacity` samples
/// that finished last, the latest first.
pub proof fn law_eviction_keeps_most_recent(
    samples: Seq<UpsertTimingDatapoint>,
    inserted: Seq<UpsertTimingDatapoint>,
    capacity: nat,
)
    requires
        forall|i: int, j: int|
            0 <= i < j < samples.len() ==> (#[trigger] samples[j]).finished_at.is_after(
                (#[trigger] samples[i]).finished_at,
            ),
        inserted.to_multiset() == samples.to_multiset(),
        capacity < samples.len(),
    ensures
        retained(filled(Seq::empty(), inserted), capacity) == samples.skip(
            samples.len() - capacity,
        ).reverse(),
{
    let order = retention_order();
    let empty = Seq::<UpsertTimingDatapoint>::empty();
    let latest_first = samples.reverse();
    law_filling_ranks_all(empty, inserted);
    assert(empty + inserted == inserted);
    lemma_ranked_by_members(inserted, samples);
    samples.lemma_reverse_to_multiset();
    lemma_ranked_by_members(latest_first, samples);
    assert forall|a: int, b: int| 0 <= a < b < latest_first.len() implies #[trigger] order(
        latest_first[a],
        latest_first[b],
    ) by {
        let i = samples.len() - 1 - b;
        let j = samples.len() - 1 - a;
        assert(samples[j].finished_at.is_after(samples[i].finished_at));
    }
    lemma_ranked_properties(latest_first);
    let filled_window = filled(empty, inserted);
    assert(filled_window == latest_first);
    lemma_ranked_properties(filled_window);
    inserted.to_multiset_ensures();
    samples.to_multiset_ensures();
    assert(retained(filled_window, capacity) =~= samples.skip(samples.len() - capacity).reverse());
}

/// Every sample that eviction drops would have left the window no later
/// than every sample it keeps, and what it keeps and drops is all there was.
pub proof fn law_eviction_drops_soonest_to_leave(
    samples: Seq<UpsertTimingDatapoint>,
    capacity: nat,
)
    ensures
        retained(samples, capacity).len() == if capacity < samples.len() {
            capacity
        } else {
            samples.len()
        },
        retained(samples, capacity) + ranked(samples).skip(retained(samples, capacity).len() as int)
            == ranked(samples),
        forall|i: int, j: int|
            0 <= i < retained(samples, capacity).len() <= j < samples.len() ==> (
            #[trigger] ranked(samples)[i]).outlasts(#[trigger] ranked(samples)[j]),
{
    lemma_ranked_properties(samples);
    let kept = retained(samples, capacity);
    assert(kept + ranked(samples).skip(kept.len() as int) =~= ranked(samples));
    assert forall|i: int, j: int| 0 <= i < kept.len() <= j < samples.len() implies (
    #[trigger] ranked(samples)[i]).outlasts(#[trigger] ranked(samples)[j]) by {
        assert(retention_order()(ranked(samples)[i], ranked(samples)[j]));
    }
}

/// Every sample of the fresh head is fresh.
pub proof fn lemma_fresh_head_is_fresh(
    samples: Seq<UpsertTimingDatapoint>,
    cutoff: Option<crate::timing::Timestamp>,
)
    ensures
        fresh_count(samples, cutoff) <= samples.len(),
        fresh(samples, cutoff).len() == fresh_count(samples, cutoff),
        forall|i: int|
            0 <= i < fresh_count(samples, cutoff) ==> is_fresh(#[trigger] samples[i], cutoff),
    decreases samples.len(),
{
    lemma_fresh_count_bounded(samples, cutoff);
    if samples.len() > 0 && is_fresh(samples[0], cutoff) {
        let rest = samples.drop_first();
        lemma_fresh_head_is_fresh(rest, cutoff);
        assert forall|i: int| 0 <= i < fresh_count(samples, cutoff) implies is_fresh(
            #[trigger] samples[i],
            cutoff,
        ) by {
            if i > 0 {
                assert(samples[i] == rest[i - 1]);
            }
        }
    }
}

/// A window never holds more than it was trimmed to, and stays in
/// retention order.
pub proof fn law_window_stays_bounded(
    window: Seq<UpsertTimingDatapoint>,
    samples: Seq<UpsertTimingDatapoint>,
    sample_size: nat,
)
    ensures
        absorbed(window, samples, sample_size).len() <= sample_size,
        sorted_by(absorbed(window, samples, sample_size), retention_order()),
{
    lemma_ranked_properties(window + fresh(samples, oldest_of(window)));
}

/// Refreshing twice from an unchanged job list changes nothing the second
/// time, provided the second pass finds no sample that finished after the
/// oldest one retained by the first (or the window holds nothing at all).
/// The cutoff is the oldest retained sample, so a newer sample that is
/// still listed is taken in again: see `law_refresh_repeats_newer_samples`.
pub proof fn law_refresh_is_idempotent(
    window: Seq<UpsertTimingDatapoint>,
    jobs: Seq<JobRecord>,
    sample_size: usize,
    batch_size: usize,
)
    requires
        sample_size == 0 || fresh(
            accepted(jobs, batch_size),
            oldest_of(refreshed(window, jobs, sample_size, batch_size)),
        ).len() == 0,
    ensures
        refreshed(refreshed(window, jobs, sample_size, batch_size), jobs, sample_size, batch_size)
            == refreshed(window, jobs, sample_size, batch_size),
        interval_of(
            durations_of(
                refreshed(
                    refreshed(window, jobs, sample_size, batch_size),
                    jobs,
                    sample_size,
                    batch_size,
                ),
            ),
        ) == interval_of(durations_of(refreshed(window, jobs, sample_size, batch_size))),
{
    let samples = accepted(jobs, batch_size);
    let once = absorbed(window, samples, sample_size as nat);
    law_window_stays_bounded(window, samples, sample_size as nat);
    let again = fresh(samples, oldest_of(once));
    if sample_size == 0 {
        assert(once.len() == 0);
        lemma_ranked_properties(once + again);
        assert(absorbed(once, samples, sample_size as nat).len() == 0);
        assert(absorbed(once, samples, sample_size as nat) =~= once);
    } else {
        assert(once + again == once);
        lemma_ranked_properties(once);
    }
}

/// The other half of `law_refresh_is_idempotent`: where the window may hold
/// something and the second pass does find a sample newer than the oldest
/// one retained, the second refresh changes the window.
pub proof fn law_refresh_repeats_newer_samples(
    window: Seq<UpsertTimingDatapoint>,
    jobs: Seq<JobRecord>,
    sample_size: usize,
    batch_size: usize,
)
    requires
        sample_size > 0,
        fresh(
            accepted(jobs, batch_size),
            oldest_of(refreshed(window, jobs, sample_size, batch_size)),
        ).len() > 0,
    ensures
        refreshed(refreshed(window, jobs, sample_size, batch_size), jobs, sample_size, batch_size)
            != refreshed(window, jobs, sample_size, batch_size),
{
    let order = retention_order();
    let samples = accepted(jobs, batch_size);
    let once = absorbed(window, samples, sample_size as nat);
    law_window_stays_bounded(window, samples, sample_size as nat);
    let cutoff = oldest_of(once);
    let again = fresh(samples, cutoff);
    let all = once + again;
    let twice = absorbed(once, samples, sample_size as nat);
    lemma_ranked_properties(all);
    lemma_fresh_head_is_fresh(samples, cutoff);
    lemma_retention_order_total();
    if twice == once {
        // Both have the same length, so the window was full and the second
        // pass evicted as many samples as it took in.
        assert(once.len() == sample_size);
        assert(twice == ranked(all).take(sample_size as int));
        let k = sample_size as int;
        let pushed_out = ranked(all)[k];
        let last_kept = ranked(all)[k - 1];
        assert(last_kept == once.last());
        assert(order(last_kept, pushed_out));
        // What was pushed out is one of the samples just taken in.
        let tail = ranked(all).skip(k);
        assert(ranked(all) == twice + tail);
        vstd::seq_lib::lemma_multiset_commutative(twice, tail);
        vstd::seq_lib::lemma_multiset_commutative(once, again);
        assert(tail.to_multiset() =~= again.to_multiset()) by {
            assert forall|d: UpsertTimingDatapoint| tail.to_multiset().count(d)
                == again.to_multiset().count(d) by {
                assert(ranked(all).to_multiset().count(d) == once.to_multiset().count(d)
                    + tail.to_multiset().count(d));
                assert(all.to_multiset().count(d) == once.to_multiset().count(d)
                    + again.to_multiset().count(d));
            }
        }
        tail.to_multiset_ensures();
        again.to_multiset_ensures();
        assert(tail[0] == pushed_out);
        assert(tail.to_multiset().count(pushed_out) > 0);
        assert(again.contains(pushed_out));
        let i = choose|i: int| 0 <= i < again.len() && again[i] == pushed_out;
        assert(again[i] == samples[i]);
        assert(is_fresh(samples[i], cutoff));
        assert(false);
    }
}

/// Two overlapping runs cannot share a timing window.  A window is in use
/// after every claim on it, whatever came of the claim; so a second claim
/// made before a release fails at once, and the supervisor does not retry
/// it.  A claim on a free window succeeds.
pub proof fn law_overlapping_claim_fails()
    ensures
        claim_outcome(true) == Err::<(), SchedulerError>(SchedulerError::ReentrancyDetected),
        supervision(claim_outcome(true)) == SupervisorAction::Abort,
        claim_outcome(false) == Ok::<(), SchedulerError>(()),
{
}

/// After a stop, exactly one more flush runs.  An event that asks for a
/// stop puts a running loop into draining; a draining loop flushes even with
/// nothing pending; when that flush has gone through the loop is stopped; a
/// stopped loop neither flushes nor observes events.
pub proof fn law_stop_runs_one_last_flush(
    event: Event,
    queued: nat,
    outcomes: Seq<bool>,
    later: Event,
    later_queued: nat,
)
    requires
        stop_reason_of(event) is Some,
        all_succeeded(outcomes),
    ensures
        SchedulerState::Running.after_event(event) == SchedulerState::Draining(
            stop_reason_of(event)->0,
        ),
        SchedulerState::Running.after_event(event).flushes(queued),
        concluded(SchedulerState::Running.after_event(event), outcomes) == Ok::<
            SchedulerState,
            SchedulerError,
        >(SchedulerState::Stopped(stop_reason_of(event)->0)),
        !SchedulerState::Stopped(stop_reason_of(event)->0).flushes(later_queued),
        SchedulerState::Stopped(stop_reason_of(event)->0).after_event(later)
            == SchedulerState::Stopped(stop_reason_of(event)->0),
{
}

/// While no stop is asked for, the loop keeps running, and it flushes
/// exactly when something is pending.
pub proof fn law_running_flushes_only_work(event: Event, queued: nat, outcomes: Seq<bool>)
    requires
        stop_reason_of(event) is None,
        all_succeeded(outcomes),
    ensures
        SchedulerState::Running.after_event(event) == SchedulerState::Running,
        SchedulerState::Running.flushes(queued) <==> queued > 0,
        concluded(SchedulerState::Running, outcomes) == Ok::<SchedulerState, SchedulerError>(
            SchedulerState::Running,
        ),
{
}

/// `document` is queued for the index named `index`.
pub open spec fn is_queued(
    entries: Seq<(String, Document)>,
    index: Seq<char>,
    document: Document,
) -> bool {
    exists|i: int|
        #![trigger entries[i]]
        0 <= i < entries.len() && entries[i].0@ == index && entries[i].1 == document
}

/// `document` is in a batch bound for the index named `index`.
pub open spec fn is_batched(batches: Seq<IndexBatch>, index: Seq<char>, document: Document) -> bool {
    exists|b: int, p: int|
        #![trigger batches[b].documents@[p]]
        0 <= b < batches.len() && 0 <= p < batches[b].documents@.len() && batches[b].index@
            == index && batches[b].documents@[p] == document
}

/// The documents picked out for an index are exactly those queued for it.
pub proof fn lemma_documents_for(entries: Seq<(String, Document)>, index: Seq<char>)
    ensures
        forall|document: Document|
            #[trigger] documents_for(entries, index).contains(document) <==> is_queued(
                entries,
                index,
                document,
            ),
    decreases entries.len(),
{
    let picked = documents_for(entries, index);
    if entries.len() == 0 {
        assert forall|document: Document| #[trigger] picked.contains(document) <==> is_queued(
            entries,
            index,
            document,
        ) by {}
    } else {
        let earlier = entries.drop_last();
        let before = documents_for(earlier, index);
        let last = entries.last();
        lemma_documents_for(earlier, index);
        assert forall|document: Document| #[trigger] picked.contains(document) <==> is_queued(
            entries,
            index,
            document,
        ) by {
            if picked.contains(document) {
                let p = choose|p: int| 0 <= p < picked.len() && picked[p] == document;
                if p < before.len() {
                    assert(before[p] == document);
                    assert(before.contains(document));
                    let i = choose|i: int|
                        #![trigger earlier[i]]
                        0 <= i < earlier.len() && earlier[i].0@ == index && earlier[i].1
                            == document;
                    assert(entries[i] == earlier[i]);
                } else {
                    assert(entries[entries.len() - 1] == last);
                }
            }
            if is_queued(entries, index, document) {
                let i = choose|i: int|
                    #![trigger entries[i]]
                    0 <= i < entries.len() && entries[i].0@ == index && entries[i].1 == document;
                if i < earlier.len() {
                    assert(earlier[i] == entries[i]);
                    assert(is_queued(earlier, index, document));
                    assert(before.contains(document));
                    let p = choose|p: int| 0 <= p < before.len() && before[p] == document;
                    assert(picked[p] == document);
                } else {
                    assert(picked[before.len() as int] == document);
                }
            }
        }
    }
}

/// A flush loses nothing and invents nothing: a document is in a batch
/// bound for an index exactly if it was queued for that index.  No two
/// batches are bound for the same index.
pub proof fn law_grouping_keeps_every_entry(
    batches: Seq<IndexBatch>,
    entries: Seq<(String, Document)>,
)
    requires
        is_grouping(batches, entries),
    ensures
        forall|index: Seq<char>, document: Document|
            #![trigger is_queued(entries, index, document)]
            #![trigger is_batched(batches, index, document)]
            is_queued(entries, index, document) <==> is_batched(batches, index, document),
        forall|a: int, b: int|
            0 <= a < b < batches.len() ==> (#[trigger] batches[a]).index@ != (
            #[trigger] batches[b]).index@,
{
    let names = index_names(entries);
    lemma_index_names(entries);
    assert forall|index: Seq<char>, document: Document|
        #![trigger is_queued(entries, index, document)]
        #![trigger is_batched(batches, index, document)]
        is_queued(entries, index, document) <==> is_batched(batches, index, document) by {
        lemma_documents_for(entries, index);
        let picked = documents_for(entries, index);
        if is_queued(entries, index, document) {
            let i = choose|i: int|
                #![trigger entries[i]]
                0 <= i < entries.len() && entries[i].0@ == index && entries[i].1 == document;
            assert(names.contains(entries[i].0@));
            let b = choose|b: int| 0 <= b < names.len() && names[b] == index;
            assert(picked.contains(document));
            let p = choose|p: int| 0 <= p < picked.len() && picked[p] == document;
            assert(batches[b].index@ == index);
            assert(batches[b].documents@[p] == document);
        }
        if is_batched(batches, index, document) {
            let (b, p) = choose|b: int, p: int|
                #![trigger batches[b].documents@[p]]
                0 <= b < batches.len() && 0 <= p < batches[b].documents@.len()
                    && batches[b].index@ == index && batches[b].documents@[p] == document;
            assert(batches[b].index@ == names[b]);
            assert(picked[p] == document);
            assert(picked.contains(document));
        }
    }
    assert forall|a: int, b: int| 0 <= a < b < batches.len() implies (#[trigger] batches[a]).index@
        != (#[trigger] batches[b]).index@ by {
        assert(batches[a].index@ == names[a]);
        assert(batches[b].index@ == names[b]);
    }
}

} // verus!
