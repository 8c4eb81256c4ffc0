//! Interval estimation: from the durations of recent batch jobs to the time
//! the scheduler waits before it next looks at the queue.

use vstd::prelude::*;
use vstd::relations::{sorted_by, total_ordering};
use vstd::seq_lib::{lemma_sorted_unique, to_multiset_insert};

verus! {

/// The wait used while no duration has been observed: thirty seconds, in
/// nanoseconds.
pub const DEFAULT_INTERVAL: u128 = 30_000_000_000;

/// Durations in ascending order.
pub open spec fn ascending() -> spec_fn(u128, u128) -> bool {
    |a: u128, b: u128| a <= b
}

/// Three quarters of `count`, rounded to the nearest integer, halves upward.
pub open spec fn percentile_rank(count: nat) -> nat {
    (3 * count + 2) / 4
}

/// The interval chosen from durations in ascending order: the one at the
/// percentile rank; the smallest where that rank is past the end; the
/// default where there is none.
pub open spec fn pick_interval(sorted: Seq<u128>) -> u128 {
    if sorted.len() == 0 {
        DEFAULT_INTERVAL
    } else if percentile_rank(sorted.len()) < sorted.len() {
        sorted[percentile_rank(sorted.len()) as int]
    } else {
        sorted[0]
    }
}

/// The interval chosen from durations in any order.
pub open spec fn interval_of(durations: Seq<u128>) -> u128 {
    pick_interval(durations.sort_by(ascending()))
}

/// Ascending order on durations is total.
pub proof fn lemma_ascending_total()
    ensures
        total_ordering(ascending()),
{
    let r = ascending();
    assert(vstd::relations::reflexive(r));
    assert(vstd::relations::antisymmetric(r));
    assert(vstd::relations::transitive(r));
    assert(vstd::relations::strongly_connected(r));
}

/// The percentile rank for `count` samples.
pub fn rank_of(count: usize) -> (rank: usize)
    ensures
        rank == percentile_rank(count as nat),
{
    let quarters: usize = count / 4;
    let rest: usize = count % 4;
    let extra: usize = if rest == 3 {
        2
    } else {
        rest
    };
    3 * quarters + extra
}

/// Sorts durations into ascending order.
pub fn sort_ascending(durations: &Vec<u128>) -> (sorted: Vec<u128>)
    ensures
        sorted@ == durations@.sort_by(ascending()),
{
    let mut sorted: Vec<u128> = Vec::new();
    let mut i: usize = 0;
    proof {
        assert(durations@.take(0) == sorted@);
    }
    while i < durations.len()
        invariant
            i <= durations.len(),
            sorted_by(sorted@, ascending()),
            sorted@.to_multiset() == durations@.take(i as int).to_multiset(),
        decreases durations.len() - i,
    {
        let next: u128 = durations[i];
        let mut at: usize = 0;
        while at < sorted.len() && sorted[at] <= next
            invariant
                at <= sorted.len(),
                forall|k: int| 0 <= k < at ==> sorted@[k] <= next,
            decreases sorted.len() - at,
        {
            at += 1;
        }
        proof {
            let before = sorted@;
            let after = before.insert(at as int, next);
            to_multiset_insert(before, at as int, next);
            assert(durations@.take(i + 1) == durations@.take(i as int).push(next));
            durations@.take(i as int).to_multiset_ensures();
            assert forall|a: int, b: int| 0 <= a < b < after.len() implies #[trigger] ascending()(
                after[a],
                after[b],
            ) by {
                if b < at {
                    assert(ascending()(before[a], before[b]));
                } else if b == at {
                } else if a < at {
                    assert(ascending()(before[a], before[b - 1]));
                } else if a == at {
                    assert(ascending()(before[at as int], before[b - 1]) || at as int == b - 1);
                } else {
                    assert(ascending()(before[a - 1], before[b - 1]));
                }
            }
        }
        sorted.insert(at, next);
        i += 1;
    }
    proof {
        assert(durations@.take(i as int) == durations@);
        lemma_ascending_total();
        durations@.lemma_sort_by_ensures(ascending());
        lemma_sorted_unique(sorted@, durations@.sort_by(ascending()), ascending());
    }
    sorted
}

/// Chooses the wait interval from the observed durations.
pub fn select_interval(durations: &Vec<u128>) -> (interval: u128)
    ensures
        interval == interval_of(durations@),
{
    let sorted = sort_ascending(durations);
    proof {
        lemma_ascending_total();
        durations@.lemma_sort_by_ensures(ascending());
        durations@.to_multiset_ensures();
        sorted@.to_multiset_ensures();
    }
    if sorted.len() == 0 {
        return DEFAULT_INTERVAL;
    }
    let rank = rank_of(sorted.len());
    if rank < sorted.len() {
        sorted[rank]
    } else {
        sorted[0]
    }
}

} // verus!
