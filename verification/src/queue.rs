//! The upsert queue: pending documents, each tagged with the index it is
//! bound for, and their grouping into one batch per index.

use vstd::prelude::*;
use crossbeam::queue::SegQueue;

verus! {

/// A document bound for the search index.  The scheduler carries the
/// payload and never looks inside.
#[derive(Clone, Debug, PartialEq, Eq)]
pub struct Document {
    pub payload: Vec<u8>,
}

/// The documents of one flush that are bound for one index, in the order in
/// which they were enqueued.
#[derive(Clone, Debug, PartialEq, Eq)]
pub struct IndexBatch {
    pub index: String,
    pub documents: Vec<Document>,
}

#[verifier::external_type_specification]
#[verifier::external_body]
#[verifier::reject_recursive_types(T)]
pub struct ExSegQueue<T>(SegQueue<T>);

/// The entries that a segment queue holds, head first.
pub uninterp spec fn queued(queue: SegQueue<(String, Document)>) -> Seq<(String, Document)>;

/// crossbeam's `SegQueue::new`.  Trusted: the new queue holds nothing.
#[verifier::external_body]
fn seg_queue_new() -> (queue: SegQueue<(String, Document)>)
    ensures
        queued(queue) == Seq::<(String, Document)>::empty(),
{
    SegQueue::new()
}

/// crossbeam's `SegQueue::push`.  Trusted: the entry is added at the tail
/// and nothing else changes.
#[verifier::external_body]
fn seg_queue_push(queue: &mut SegQueue<(String, Document)>, entry: (String, Document))
    ensures
        queued(*final(queue)) == queued(*old(queue)).push(entry),
{
    queue.push(entry)
}

/// crossbeam's `SegQueue::pop`.  Trusted: the head entry is removed and
/// returned; an empty queue yields nothing and stays empty.
#[verifier::external_body]
fn seg_queue_pop(queue: &mut SegQueue<(String, Document)>) -> (head: Option<(String, Document)>)
    ensures
        head == if queued(*old(queue)).len() == 0 {
            None
        } else {
            Some(queued(*old(queue))[0])
        },
        queued(*final(queue)) == if queued(*old(queue)).len() == 0 {
            queued(*old(queue))
        } else {
            queued(*old(queue)).drop_first()
        },
{
    queue.pop()
}

/// crossbeam's `SegQueue::len`.  Trusted: it is the number of entries held.
#[verifier::external_body]
fn seg_queue_len(queue: &SegQueue<(String, Document)>) -> (n: usize)
    ensures
        n == queued(*queue).len(),
{
    queue.len()
}

/// The entries made by tagging each document with the same index name.
pub open spec fn tagged(index: String, documents: Seq<Document>) -> Seq<(String, Document)> {
    documents.map_values(|document: Document| (index, document))
}

/// The documents among `entries` that are bound for `index`, in the order
/// of the entries.
pub open spec fn documents_for(entries: Seq<(String, Document)>, index: Seq<char>) -> Seq<Document>
    decreases entries.len(),
{
    if entries.len() == 0 {
        Seq::empty()
    } else {
        let earlier = documents_for(entries.drop_last(), index);
        if entries.last().0@ == index {
            earlier.push(entries.last().1)
        } else {
            earlier
        }
    }
}

/// The index names that occur among `entries`, each once, in the order in
/// which they first occur.
pub open spec fn index_names(entries: Seq<(String, Document)>) -> Seq<Seq<char>>
    decreases entries.len(),
{
    if entries.len() == 0 {
        Seq::empty()
    } else {
        let earlier = index_names(entries.drop_last());
        if earlier.contains(entries.last().0@) {
            earlier
        } else {
            earlier.push(entries.last().0@)
        }
    }
}

/// `batches` is the grouping of `entries` by index: one batch for each
/// index name that occurs, in the order of first occurrence, holding the
/// documents bound for that index in the order of the entries.
pub open spec fn is_grouping(batches: Seq<IndexBatch>, entries: Seq<(String, Document)>) -> bool {
    &&& batches.len() == index_names(entries).len()
    &&& forall|i: int|
        0 <= i < batches.len() ==> (#[trigger] batches[i]).index@ == index_names(entries)[i]
            && batches[i].documents@ == documents_for(entries, index_names(entries)[i])
}

/// No index name is listed twice, and an index that is not listed has no
/// documents.
pub proof fn lemma_index_names(entries: Seq<(String, Document)>)
    ensures
        index_names(entries).no_duplicates(),
        forall|index: Seq<char>|
            !index_names(entries).contains(index) ==> #[trigger] documents_for(entries, index)
                == Seq::<Document>::empty(),
        forall|i: int|
            0 <= i < entries.len() ==> index_names(entries).contains((#[trigger] entries[i]).0@),
    decreases entries.len(),
{
    if entries.len() > 0 {
        let earlier = entries.drop_last();
        let names = index_names(earlier);
        let last = entries.last().0@;
        lemma_index_names(earlier);
        let listed = index_names(entries);
        assert forall|index: Seq<char>| !listed.contains(index) implies #[trigger] documents_for(
            entries,
            index,
        ) == Seq::<Document>::empty() by {
            if names.contains(index) {
                let k = choose|k: int| 0 <= k < names.len() && names[k] == index;
                assert(listed[k] == index);
            }
            if index == last {
                if names.contains(last) {
                } else {
                    assert(listed[names.len() as int] == last);
                }
            }
            assert(documents_for(earlier, index) == Seq::<Document>::empty());
        }
        assert forall|i: int| 0 <= i < entries.len() implies listed.contains(
            (#[trigger] entries[i]).0@,
        ) by {
            if i < earlier.len() {
                assert(earlier[i] == entries[i]);
                let k = choose|k: int| 0 <= k < names.len() && names[k] == earlier[i].0@;
                assert(listed[k] == earlier[i].0@);
            } else if names.contains(last) {
            } else {
                assert(listed[names.len() as int] == last);
            }
        }
    }
}

/// A first-in, first-out buffer of pending upserts.
pub struct UpsertQueue {
    entries: SegQueue<(String, Document)>,
}

impl View for UpsertQueue {
    type V = Seq<(String, Document)>;

    /// The pending entries, oldest first.
    closed spec fn view(&self) -> Seq<(String, Document)> {
        queued(self.entries)
    }
}

impl UpsertQueue {
    /// An empty queue.
    pub fn new() -> (queue: UpsertQueue)
        ensures
            queue@ == Seq::<(String, Document)>::empty(),
    {
        UpsertQueue { entries: seg_queue_new() }
    }

    /// The number of pending entries.
    pub fn len(&self) -> (n: usize)
        ensures
            n == self@.len(),
    {
        seg_queue_len(&self.entries)
    }

    /// Appends one document bound for `index`.
    pub fn push(&mut self, index: String, document: Document)
        ensures
            final(self)@ == old(self)@.push((index, document)),
    {
        seg_queue_push(&mut self.entries, (index, document));
    }

    /// Removes and returns the oldest entry, if there is one.
    pub fn pop(&mut self) -> (head: Option<(String, Document)>)
        ensures
            head == if old(self)@.len() == 0 {
                None
            } else {
                Some(old(self)@[0])
            },
            final(self)@ == if old(self)@.len() == 0 {
                old(self)@
            } else {
                old(self)@.drop_first()
            },
    {
        seg_queue_pop(&mut self.entries)
    }

    /// Appends every document of `documents`, in order, bound for `index`.
    pub fn extend(&mut self, index: String, documents: Vec<Document>)
        ensures
            final(self)@ == old(self)@ + tagged(index, documents@),
    {
        proof {
            assert(old(self)@ + tagged(index, documents@.take(0)) == old(self)@);
        }
        for document in it: documents
            invariant
                self@ == old(self)@ + tagged(index, it.seq().take(it.index())),
                it.seq() == documents@,
        {
            proof {
                let done = it.seq().take(it.index());
                let next = it.seq().take(it.index() + 1);
                assert(next == done.push(document));
                assert(tagged(index, next) == tagged(index, done).push((index, document)));
            }
            self.push(index.clone(), document);
        }
        proof {
            assert(documents@.take(documents@.len() as int) == documents@);
        }
    }

    /// Swaps the whole content out: the queue is left empty and what it held
    /// is returned as a queue of its own.
    pub fn take(&mut self) -> (taken: UpsertQueue)
        ensures
            taken@ == old(self)@,
            final(self)@ == Seq::<(String, Document)>::empty(),
    {
        let mut taken = UpsertQueue::new();
        std::mem::swap(&mut self.entries, &mut taken.entries);
        taken
    }
}

/// Empties a queue into one batch per index.  Batches come in the order in
/// which their index first occurs in the queue, and each keeps its
/// documents in queue order.
pub fn group_by_index(queue: UpsertQueue) -> (batches: Vec<IndexBatch>)
    ensures
        is_grouping(batches@, queue@),
{
    let mut queue = queue;
    let mut batches: Vec<IndexBatch> = Vec::new();
    let ghost all = queue@;
    let ghost done: int = 0;
    proof {
        assert(all.skip(0) == all);
    }
    loop
        invariant
            0 <= done <= all.len(),
            queue@ == all.skip(done),
            is_grouping(batches@, all.take(done)),
        ensures
            is_grouping(batches@, all),
        decreases queue@.len(),
    {
        let (index, document) = match queue.pop() {
            Some(entry) => entry,
            None => {
                proof {
                    assert(all.take(done) == all);
                }
                break ;
            },
        };
        let ghost seen = all.take(done);
        let ghost now = all.take(done + 1);
        let ghost names = index_names(seen);
        proof {
            assert(all.skip(done)[0] == all[done]);
            assert(all.skip(done).drop_first() == all.skip(done + 1));
            assert(now.drop_last() == seen);
            assert(now.last() == (index, document));
            lemma_index_names(seen);
        }
        let mut at: usize = 0;
        while at < batches.len() && batches[at].index != index
            invariant
                at <= batches.len(),
                forall|k: int| 0 <= k < at ==> (#[trigger] batches@[k]).index@ != index@,
            decreases batches.len() - at,
        {
            at += 1;
        }
        if at < batches.len() {
            proof {
                assert(names[at as int] == index@);
                assert(index_names(now) == names);
            }
            let ghost before = batches@;
            batches[at].documents.push(document);
            proof {
                assert(batches@.len() == before.len());
                assert forall|i: int| 0 <= i < batches@.len() implies (#[trigger] batches@[i]).index@
                    == index_names(now)[i] && batches@[i].documents@ == documents_for(
                    now,
                    index_names(now)[i],
                ) by {
                    assert(before[i].index@ == names[i]);
                    if i != at as int {
                        assert(batches@[i] == before[i]);
                        assert(names[i] != names[at as int]);
                    }
                }
            }
        } else {
            proof {
                assert(!names.contains(index@)) by {
                    if names.contains(index@) {
                        let k = choose|k: int| 0 <= k < names.len() && names[k] == index@;
                        assert(batches@[k].index@ == names[k]);
                    }
                }
                assert(index_names(now) == names.push(index@));
                assert(documents_for(seen, index@) == Seq::<Document>::empty());
            }
            let ghost before = batches@;
            let mut documents: Vec<Document> = Vec::new();
            documents.push(document);
            batches.push(IndexBatch { index, documents });
            proof {
                assert forall|i: int| 0 <= i < batches@.len() implies (#[trigger] batches@[i]).index@
                    == index_names(now)[i] && batches@[i].documents@ == documents_for(
                    now,
                    index_names(now)[i],
                ) by {
                    if i < before.len() {
                        assert(batches@[i] == before[i]);
                        assert(before[i].index@ == names[i]);
                        assert(names.contains(names[i]));
                    } else {
                        assert(batches@[i].documents@ == Seq::<Document>::empty().push(document));
                    }
                }
            }
        }
        proof {
            done = done + 1;
        }
    }
    batches
}

} // verus!
