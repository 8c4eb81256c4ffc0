use upsert_scheduler::client::Client;
use upsert_scheduler::error::SchedulerError;
use upsert_scheduler::timing::{JobKind, JobRecord, JobStatus, Timestamp, UpsertTimingDatapoint};
use upsert_scheduler::window::{finished_after, TimingWindow};

const MILLI: u128 = 1_000_000;
const NANOS: i128 = 1_000_000_000;

fn sample(secs: i64, duration: u128) -> UpsertTimingDatapoint {
    UpsertTimingDatapoint { finished_at: Timestamp { secs, nanos: 0 }, duration }
}

fn contents(window: &TimingWindow) -> Vec<UpsertTimingDatapoint> {
    let mut held: Vec<UpsertTimingDatapoint> = Vec::new();
    let mut position: usize = 0;
    while let Some(found) = window.get(position) {
        held.push(found);
        position += 1;
    }
    assert_eq!(held.len(), window.len());
    held
}

fn finished(secs: i128, duration: u128) -> JobRecord {
    JobRecord {
        status: JobStatus::Succeeded,
        kind: JobKind::DocumentAddition,
        finished_at_nanos: secs * NANOS,
        duration,
        indexed_documents: Some(1000),
    }
}

#[test]
fn new_window_is_empty_and_free() {
    let mut window = TimingWindow::new();
    assert_eq!(window.len(), 0);
    assert_eq!(window.oldest(), None);
    assert_eq!(window.get(0), None);
    assert_eq!(window.interval(), 30_000_000_000);
    assert_eq!(window.try_acquire(), Ok(()));
}

#[test]
fn insert_keeps_latest_first_whatever_the_order() {
    let orders: Vec<Vec<i64>> = vec![
        vec![1, 2, 3, 4],
        vec![4, 3, 2, 1],
        vec![2, 4, 1, 3],
        vec![3, 1, 4, 2],
    ];
    for order in orders {
        let mut window = TimingWindow::new();
        for secs in order {
            window.insert(sample(secs, 10));
        }
        assert_eq!(
            contents(&window),
            vec![sample(4, 10), sample(3, 10), sample(2, 10), sample(1, 10)]
        );
        assert_eq!(window.oldest(), Some(Timestamp { secs: 1, nanos: 0 }));
    }
}

#[test]
fn insert_breaks_ties_by_duration_and_keeps_duplicates() {
    let mut window = TimingWindow::new();
    window.insert(sample(1, 20));
    window.insert(sample(1, 30));
    window.insert(sample(1, 10));
    window.insert(sample(1, 20));
    assert_eq!(
        contents(&window),
        vec![sample(1, 30), sample(1, 20), sample(1, 20), sample(1, 10)]
    );
}

#[test]
fn trim_retains_exactly_the_most_recent() {
    let orders: Vec<Vec<i64>> = vec![vec![1, 2, 3, 4, 5], vec![5, 1, 4, 2, 3], vec![3, 5, 2, 4, 1]];
    for order in orders {
        let mut window = TimingWindow::new();
        for secs in order {
            window.insert(sample(secs, 7));
        }
        window.trim(2);
        assert_eq!(contents(&window), vec![sample(5, 7), sample(4, 7)]);
    }
}

#[test]
fn trim_evicts_the_shorter_duration_first_on_equal_finish_times() {
    let mut window = TimingWindow::new();
    window.insert(sample(1, 5));
    window.insert(sample(1, 9));
    window.insert(sample(1, 7));
    window.trim(2);
    assert_eq!(contents(&window), vec![sample(1, 9), sample(1, 7)]);
}

#[test]
fn trim_to_a_larger_capacity_or_to_zero() {
    let mut window = TimingWindow::new();
    window.insert(sample(1, 5));
    window.insert(sample(2, 5));
    window.trim(2);
    assert_eq!(window.len(), 2);
    window.trim(10);
    assert_eq!(contents(&window), vec![sample(2, 5), sample(1, 5)]);
    window.trim(0);
    assert_eq!(window.len(), 0);
    assert_eq!(window.oldest(), None);
}

#[test]
fn durations_follow_the_samples() {
    let mut window = TimingWindow::new();
    window.insert(sample(1, 30));
    window.insert(sample(3, 10));
    window.insert(sample(2, 20));
    assert_eq!(window.durations(), vec![10, 20, 30]);
    window.insert(sample(4, 25));
    assert_eq!(window.durations(), vec![25, 10, 20, 30]);
}

#[test]
fn window_interval_is_the_percentile_of_its_durations() {
    let mut window = TimingWindow::new();
    window.insert(sample(1, 40 * MILLI));
    window.insert(sample(2, 10 * MILLI));
    window.insert(sample(3, 30 * MILLI));
    window.insert(sample(4, 20 * MILLI));
    assert_eq!(window.interval(), 40 * MILLI);
    window.trim(2);
    assert_eq!(window.interval(), 20 * MILLI);
}

#[test]
fn freshness_is_strictly_after_the_cutoff() {
    let cutoff = Some(Timestamp { secs: 5, nanos: 10 });
    assert!(finished_after(&sample(6, 1), cutoff));
    assert!(!finished_after(&sample(5, 1), cutoff));
    let same = UpsertTimingDatapoint { finished_at: Timestamp { secs: 5, nanos: 10 }, duration: 1 };
    assert!(!finished_after(&same, cutoff));
    let just = UpsertTimingDatapoint { finished_at: Timestamp { secs: 5, nanos: 11 }, duration: 1 };
    assert!(finished_after(&just, cutoff));
    assert!(finished_after(&sample(-100, 1), None));
}

#[test]
fn absorb_into_an_empty_window_takes_everything() {
    let mut window = TimingWindow::new();
    let listed = vec![sample(4, 40), sample(3, 30), sample(2, 20), sample(1, 10)];
    let interval = window.absorb(&listed, 30);
    assert_eq!(contents(&window), listed);
    assert_eq!(interval, 40);
}

#[test]
fn absorb_stops_at_the_first_sample_not_after_the_cutoff() {
    let mut window = TimingWindow::new();
    window.insert(sample(10, 1));
    window.insert(sample(20, 2));
    // 25 and 15 are newer than the oldest held (10); 10 is not, and stops
    // the walk, so 30 behind it is never seen.
    let listed = vec![sample(25, 3), sample(15, 4), sample(10, 5), sample(30, 6)];
    let interval = window.absorb(&listed, 30);
    assert_eq!(
        contents(&window),
        vec![sample(25, 3), sample(20, 2), sample(15, 4), sample(10, 1)]
    );
    assert_eq!(interval, 4);
}

#[test]
fn absorb_evicts_down_to_the_sample_size() {
    let mut window = TimingWindow::new();
    let listed = vec![sample(5, 50), sample(4, 40), sample(3, 30), sample(2, 20), sample(1, 10)];
    let interval = window.absorb(&listed, 3);
    assert_eq!(contents(&window), vec![sample(5, 50), sample(4, 40), sample(3, 30)]);
    assert_eq!(interval, 50);
    let nothing: Vec<UpsertTimingDatapoint> = Vec::new();
    assert_eq!(window.absorb(&nothing, 0), 30_000_000_000);
    assert_eq!(window.len(), 0);
}

#[test]
fn refresh_is_idempotent_when_nothing_listed_is_newer_than_the_oldest_held() {
    let jobs = vec![finished(3, 30), finished(2, 20), finished(1, 10)];
    let mut window = TimingWindow::new();
    let first = Client::update_upsert_interval(&jobs, &mut window, 1, 1000);
    let after_first = contents(&window);
    assert_eq!(after_first, vec![sample(3, 30)]);
    let second = Client::update_upsert_interval(&jobs, &mut window, 1, 1000);
    assert_eq!(contents(&window), after_first);
    assert_eq!(first, 30);
    assert_eq!(second, 30);

    let single = vec![finished(7, 70)];
    let mut other = TimingWindow::new();
    Client::update_upsert_interval(&single, &mut other, 30, 1000);
    Client::update_upsert_interval(&single, &mut other, 30, 1000);
    assert_eq!(contents(&other), vec![sample(7, 70)]);
}

#[test]
fn refresh_takes_in_again_what_is_newer_than_the_oldest_held() {
    let jobs = vec![finished(2, 20), finished(1, 10)];
    let mut window = TimingWindow::new();
    Client::update_upsert_interval(&jobs, &mut window, 30, 1000);
    assert_eq!(contents(&window), vec![sample(2, 20), sample(1, 10)]);
    Client::update_upsert_interval(&jobs, &mut window, 30, 1000);
    assert_eq!(contents(&window), vec![sample(2, 20), sample(2, 20), sample(1, 10)]);
}

#[test]
fn refresh_filters_then_absorbs_and_selects() {
    let mut small = finished(9, 999);
    small.indexed_documents = Some(10);
    let jobs = vec![
        finished(8, 40 * MILLI),
        small,
        finished(7, 10 * MILLI),
        finished(6, 30 * MILLI),
        finished(5, 20 * MILLI),
    ];
    let mut window = TimingWindow::new();
    let interval = Client::update_upsert_interval(&jobs, &mut window, 30, 1000);
    assert_eq!(window.len(), 4);
    assert_eq!(interval, 40 * MILLI);
    let newer = vec![finished(9, 5 * MILLI), finished(8, 40 * MILLI)];
    let interval = Client::update_upsert_interval(&newer, &mut window, 2, 1000);
    assert_eq!(contents(&window), vec![sample(9, 5 * MILLI), sample(8, 40 * MILLI)]);
    assert_eq!(interval, 5 * MILLI);
}

#[test]
fn windows_stay_well_formed() {
    let mut window = TimingWindow::new();
    assert!(window.is_well_formed());
    for secs in [3, 1, 4, 1, 5, 9, 2, 6] {
        window.insert(sample(secs, (secs as u128) * 3 % 7));
        assert!(window.is_well_formed());
    }
    window.trim(3);
    assert!(window.is_well_formed());
    window.absorb(&vec![sample(20, 1), sample(7, 2), sample(12, 3)], 4);
    assert!(window.is_well_formed());
    assert_eq!(window.len(), 4);
}

#[test]
fn second_claim_on_a_window_fails_at_once() {
    let mut window = TimingWindow::new();
    window.insert(sample(1, 10));
    assert_eq!(window.try_acquire(), Ok(()));
    assert_eq!(window.try_acquire(), Err(SchedulerError::ReentrancyDetected));
    assert_eq!(window.try_acquire(), Err(SchedulerError::ReentrancyDetected));
    assert_eq!(contents(&window), vec![sample(1, 10)]);
    window.release();
    assert_eq!(window.try_acquire(), Ok(()));
    assert_eq!(contents(&window), vec![sample(1, 10)]);
}
