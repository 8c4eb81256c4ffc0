use upsert_scheduler::client::{Args, Client};
use upsert_scheduler::queue::{group_by_index, Document, IndexBatch, UpsertQueue};

fn doc(bytes: &[u8]) -> Document {
    Document { payload: bytes.to_vec() }
}

fn docs(count: usize) -> Vec<Document> {
    let mut made: Vec<Document> = Vec::new();
    for n in 0..count {
        made.push(Document { payload: format!("doc-{}", n).into_bytes() });
    }
    made
}

#[test]
fn new_queue_is_empty() {
    let mut queue = UpsertQueue::new();
    assert_eq!(queue.len(), 0);
    assert_eq!(queue.pop(), None);
    assert_eq!(queue.len(), 0);
}

#[test]
fn queue_is_first_in_first_out() {
    let mut queue = UpsertQueue::new();
    queue.push("a".to_string(), doc(b"1"));
    queue.push("b".to_string(), doc(b"2"));
    queue.push("a".to_string(), doc(b"3"));
    assert_eq!(queue.len(), 3);
    assert_eq!(queue.pop(), Some(("a".to_string(), doc(b"1"))));
    assert_eq!(queue.len(), 2);
    assert_eq!(queue.pop(), Some(("b".to_string(), doc(b"2"))));
    assert_eq!(queue.pop(), Some(("a".to_string(), doc(b"3"))));
    assert_eq!(queue.pop(), None);
    assert_eq!(queue.len(), 0);
}

#[test]
fn queue_holds_more_than_one_segment() {
    let mut queue = UpsertQueue::new();
    for n in 0..200u8 {
        queue.push("idx".to_string(), Document { payload: vec![n] });
    }
    assert_eq!(queue.len(), 200);
    for n in 0..200u8 {
        assert_eq!(queue.pop(), Some(("idx".to_string(), Document { payload: vec![n] })));
    }
    assert_eq!(queue.pop(), None);
}

#[test]
fn extend_appends_in_order_behind_what_is_pending() {
    let mut queue = UpsertQueue::new();
    queue.push("first".to_string(), doc(b"0"));
    queue.extend("second".to_string(), vec![doc(b"1"), doc(b"2"), doc(b"3")]);
    queue.extend("third".to_string(), Vec::new());
    assert_eq!(queue.len(), 4);
    assert_eq!(queue.pop(), Some(("first".to_string(), doc(b"0"))));
    assert_eq!(queue.pop(), Some(("second".to_string(), doc(b"1"))));
    assert_eq!(queue.pop(), Some(("second".to_string(), doc(b"2"))));
    assert_eq!(queue.pop(), Some(("second".to_string(), doc(b"3"))));
    assert_eq!(queue.pop(), None);
}

#[test]
fn take_swaps_the_whole_content_out() {
    let mut queue = UpsertQueue::new();
    queue.extend("a".to_string(), vec![doc(b"1"), doc(b"2")]);
    let mut taken = queue.take();
    assert_eq!(queue.len(), 0);
    assert_eq!(taken.len(), 2);
    queue.push("b".to_string(), doc(b"3"));
    assert_eq!(taken.pop(), Some(("a".to_string(), doc(b"1"))));
    assert_eq!(taken.pop(), Some(("a".to_string(), doc(b"2"))));
    assert_eq!(taken.pop(), None);
    assert_eq!(queue.pop(), Some(("b".to_string(), doc(b"3"))));
}

#[test]
fn grouping_an_empty_queue_gives_no_batches() {
    let batches = group_by_index(UpsertQueue::new());
    assert_eq!(batches, Vec::new());
}

#[test]
fn grouping_keeps_first_appearance_and_queue_order() {
    let mut queue = UpsertQueue::new();
    queue.push("metadatas".to_string(), doc(b"m1"));
    queue.push("name_service".to_string(), doc(b"n1"));
    queue.push("metadatas".to_string(), doc(b"m2"));
    queue.push("other".to_string(), doc(b"o1"));
    queue.push("name_service".to_string(), doc(b"n2"));
    queue.push("metadatas".to_string(), doc(b"m3"));
    let batches = group_by_index(queue);
    assert_eq!(
        batches,
        vec![
            IndexBatch {
                index: "metadatas".to_string(),
                documents: vec![doc(b"m1"), doc(b"m2"), doc(b"m3")],
            },
            IndexBatch {
                index: "name_service".to_string(),
                documents: vec![doc(b"n1"), doc(b"n2")],
            },
            IndexBatch { index: "other".to_string(), documents: vec![doc(b"o1")] },
        ]
    );
}

#[test]
fn grouping_keeps_equal_documents_apart() {
    let mut queue = UpsertQueue::new();
    queue.extend("a".to_string(), vec![doc(b"same"), doc(b"same")]);
    queue.push("".to_string(), doc(b"same"));
    let batches = group_by_index(queue);
    assert_eq!(
        batches,
        vec![
            IndexBatch { index: "a".to_string(), documents: vec![doc(b"same"), doc(b"same")] },
            IndexBatch { index: "".to_string(), documents: vec![doc(b"same")] },
        ]
    );
}

#[test]
fn default_settings() {
    let args = Args::default();
    assert_eq!(args.upsert_batch, 1000);
    assert_eq!(args.upsert_interval_sample_size, 30);
    assert!(!args.dry_run);
}

#[test]
fn new_client_holds_nothing() {
    let args = Args { upsert_batch: 17, upsert_interval_sample_size: 3, dry_run: true };
    let client = Client::new(&args);
    assert_eq!(client.upsert_batch, 17);
    assert_eq!(client.upsert_queue.len(), 0);
    assert_eq!(client.upsert_timing_set.len(), 0);
}

#[test]
fn fewer_documents_than_the_threshold_do_not_fire_the_trigger() {
    for batch in 1..6usize {
        for count in 0..batch {
            let args = Args { upsert_batch: batch, ..Args::default() };
            let mut client = Client::new(&args);
            assert!(!client.upsert_documents("idx".to_string(), docs(count)));
            assert_eq!(client.upsert_queue.len(), count);
        }
    }
}

#[test]
fn reaching_the_threshold_fires_the_trigger() {
    for batch in 0..6usize {
        for extra in 0..3usize {
            let args = Args { upsert_batch: batch, ..Args::default() };
            let mut client = Client::new(&args);
            assert!(client.upsert_documents("idx".to_string(), docs(batch + extra)));
            assert_eq!(client.upsert_queue.len(), batch + extra);
        }
    }
}

#[test]
fn the_threshold_counts_everything_pending() {
    let args = Args { upsert_batch: 5, ..Args::default() };
    let mut client = Client::new(&args);
    assert!(!client.upsert_documents("a".to_string(), docs(2)));
    assert!(!client.upsert_documents("b".to_string(), docs(2)));
    assert!(client.upsert_documents("a".to_string(), docs(1)));
    assert!(client.upsert_documents("c".to_string(), Vec::new()));
    assert_eq!(client.upsert_queue.len(), 5);
    assert_eq!(
        client.upsert_queue.pop(),
        Some(("a".to_string(), Document { payload: b"doc-0".to_vec() }))
    );
}
