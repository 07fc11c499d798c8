//! Buffered accumulator: files requests into per-key queues, flushes whichever
//! batch fills or expires first (earliest deadline wins), and splits the
//! results of each invocation back per caller.

use super::merge;
use super::merge::{merge_inputs, split_results};
use crate::inputs::{Inputs, NameSet};
use crate::prediction;
use crate::prediction::{Acceleration, PredictError, Prediction, PredictionView};
use crate::serving::stats;
use crate::serving::stats::{unary_sample, PredictionSample};
use crate::text::same_text;
use crate::value::{Value, ValueView};
use std::collections::VecDeque;
use vstd::prelude::*;

verus! {

/// How long a batch waits for more requests before it is flushed, in nanoseconds.
pub const FLUSH_DEADLINE: u128 = 100_000_000;

/// Requests that may wait for each buffered model's accumulator.
pub const CHANNEL_BUFFER: usize = 1024;

/// One request in flight through a buffered model's accumulator.
#[derive(Debug)]
pub struct PredictItem {
    /// Inputs as supplied by the caller.
    pub inputs: Inputs,
    /// Acceleration that the caller requested.
    pub acceleration: Acceleration,
    /// Batch slots that this request occupies.
    pub item_count: usize,
    /// Fingerprint of the broadcast values; only requests with equal keys share
    /// an invocation.
    pub batch_key: String,
    /// When the caller dispatched the request, in nanoseconds. Anchors the flush
    /// deadline, so that time spent waiting to be filed counts.
    pub enqueued: u64,
    /// Names the caller that waits for the answer.
    pub ticket: u64,
    /// Place in the order of filing.
    pub arrival: u64,
}

/// The batch slots that requests occupy together.
pub open spec fn slots(items: Seq<PredictItem>) -> int
    decreases items.len(),
{
    if items.len() == 0 {
        0
    } else {
        slots(items.drop_last()) + items.last().item_count
    }
}

/// When a queue is due: the deadline of its front request.
pub open spec fn due(items: Seq<PredictItem>) -> int {
    items[0].enqueued + FLUSH_DEADLINE
}

/// Whether a batch of the first requests is complete: none is left, the
/// capacity is reached, or the next request would exceed it.
pub open spec fn batch_ends(items: Seq<PredictItem>, capacity: usize, n: int) -> bool {
    n == items.len() || slots(items.take(n)) >= capacity || slots(items.take(n + 1)) > capacity
}

/// The number of requests in a batch: the least, from a given one on, at which
/// the batch is complete.
pub open spec fn batch_len_from(items: Seq<PredictItem>, capacity: usize, n: int) -> int
    decreases items.len() - n,
{
    if n >= items.len() || batch_ends(items, capacity, n) {
        n
    } else {
        batch_len_from(items, capacity, n + 1)
    }
}

/// The number of requests in the next batch of a queue.
pub open spec fn batch_len(items: Seq<PredictItem>, capacity: usize) -> int {
    batch_len_from(items, capacity, 1)
}

/// Slots of a prefix are those of the shorter prefix and of the last request.
proof fn lemma_slots_step(items: Seq<PredictItem>, n: int)
    requires
        0 <= n < items.len(),
    ensures
        slots(items.take(n + 1)) == slots(items.take(n)) + items[n].item_count,
{
    assert(items.take(n + 1).drop_last() =~= items.take(n));
}

/// Slots are not negative, and split at any place.
pub proof fn lemma_slots_split(items: Seq<PredictItem>, n: int)
    requires
        0 <= n <= items.len(),
    ensures
        0 <= slots(items.take(n)) <= slots(items),
        slots(items) == slots(items.take(n)) + slots(items.skip(n)),
    decreases items.len(),
{
    if n == items.len() {
        assert(items.take(n) =~= items);
        assert(items.skip(n).len() == 0);
        if items.len() > 0 {
            lemma_slots_split(items.drop_last(), items.len() - 1);
            assert(items.drop_last().take(items.len() - 1) =~= items.drop_last());
        }
    } else {
        let before = items.drop_last();
        lemma_slots_split(before, n);
        assert(items.take(n) =~= before.take(n));
        assert(items.skip(n).drop_last() =~= before.skip(n));
        assert(items.skip(n).last() == items.last());
    }
}

/// Slots are bounded by the number of requests.
proof fn lemma_slots_bound(items: Seq<PredictItem>)
    ensures
        0 <= slots(items) <= items.len() * usize::MAX,
    decreases items.len(),
{
    if items.len() > 0 {
        lemma_slots_bound(items.drop_last());
        let n = items.len() as int;
        assert((n - 1) * usize::MAX + usize::MAX == n * usize::MAX) by (nonlinear_arith);
    }
}

/// A batch has at least one request and no more than there are.
pub proof fn lemma_batch_len(items: Seq<PredictItem>, capacity: usize, n: int)
    requires
        1 <= n <= items.len(),
    ensures
        n <= batch_len_from(items, capacity, n) <= items.len(),
        batch_ends(items, capacity, batch_len_from(items, capacity, n)),
        forall|m: int|
            n <= m < batch_len_from(items, capacity, n) ==> !#[trigger] batch_ends(
                items,
                capacity,
                m,
            ),
    decreases items.len() - n,
{
    if n < items.len() && !batch_ends(items, capacity, n) {
        lemma_batch_len(items, capacity, n + 1);
    }
}

/// Requests with the same key that wait for a batch slot. The front request's
/// arrival anchors the flush deadline of the whole queue.
#[derive(Debug)]
pub struct KeyQueue {
    key: String,
    items: VecDeque<PredictItem>,
    total_items: u128,
}

impl View for KeyQueue {
    type V = Seq<PredictItem>;

    closed spec fn view(&self) -> Seq<PredictItem> {
        self.items@
    }
}

impl KeyQueue {
    /// The key that the requests share.
    pub closed spec fn key_text(&self) -> Seq<char> {
        self.key@
    }

    /// The running total counts the slots of the requests, and all have the key.
    pub closed spec fn wf(&self) -> bool {
        &&& self.total_items == slots(self.items@)
        &&& forall|i: int|
            0 <= i < self.items@.len() ==> (#[trigger] self.items@[i]).batch_key@ == self.key@
    }

    /// A queue for a key, without requests.
    fn new(key: &str) -> (r: KeyQueue)
        ensures
            r.wf(),
            r.key_text() == key@,
            r@ == Seq::<PredictItem>::empty(),
    {
        KeyQueue { key: key.to_owned(), items: VecDeque::new(), total_items: 0 }
    }

    /// Adds a request at the back.
    fn push(&mut self, item: PredictItem)
        requires
            old(self).wf(),
            item.batch_key@ == old(self).key_text(),
        ensures
            final(self).wf(),
            final(self).key_text() == old(self).key_text(),
            final(self)@ == old(self)@.push(item),
    {
        let waiting: usize = self.items.len();
        proof {
            lemma_slots_bound(self.items@);
            assert(waiting * usize::MAX <= usize::MAX * usize::MAX) by (nonlinear_arith)
                requires
                    0 <= waiting <= usize::MAX,
            ;
            assert(usize::MAX * usize::MAX + usize::MAX <= u128::MAX) by (nonlinear_arith)
                requires
                    0 <= usize::MAX <= 0xffff_ffff_ffff_ffff,
            ;
            assert(self.items@.push(item).drop_last() =~= self.items@);
        }
        self.total_items = self.total_items + item.item_count as u128;
        self.items.push_back(item);
    }

    /// When the queue is due.
    fn deadline(&self) -> (r: u128)
        requires
            self@.len() > 0,
        ensures
            r == due(self@),
    {
        self.items[0].enqueued as u128 + FLUSH_DEADLINE
    }

    /// Takes the next batch: the largest prefix that fits in the capacity, and
    /// at least one request, so that a single oversized one runs alone.
    fn take_batch(&mut self, capacity: usize) -> (r: Vec<PredictItem>)
        requires
            old(self).wf(),
            old(self)@.len() > 0,
        ensures
            final(self).wf(),
            final(self).key_text() == old(self).key_text(),
            r@ == old(self)@.take(batch_len(old(self)@, capacity)),
            final(self)@ == old(self)@.skip(batch_len(old(self)@, capacity)),
            1 <= batch_len(old(self)@, capacity) <= old(self)@.len(),
    {
        let ghost all = self.items@;
        let mut batch: Vec<PredictItem> = Vec::new();
        let mut total: u128 = 0;
        proof {
            assert(all.take(0) =~= batch@);
            assert(all.skip(0) =~= all);
            lemma_batch_len(all, capacity, 1);
        }
        loop
            invariant_except_break
                batch@.len() < all.len(),
                batch@.len() == 0 || !batch_ends(all, capacity, batch@.len() as int),
            invariant
                all == old(self)@,
                all.len() > 0,
                batch@ == all.take(batch@.len() as int),
                self.items@ == all.skip(batch@.len() as int),
                self.key@ == old(self).key@,
                total == slots(batch@),
                self.total_items == slots(self.items@),
                forall|i: int|
                    0 <= i < self.items@.len() ==> (#[trigger] self.items@[i]).batch_key@
                        == self.key@,
                batch@.len() > 0 ==> batch_len(all, capacity) == batch_len_from(
                    all,
                    capacity,
                    batch@.len() as int,
                ),
            ensures
                self.wf(),
                self.key@ == old(self).key@,
                1 <= batch@.len() <= all.len(),
                batch@ == all.take(batch@.len() as int),
                self.items@ == all.skip(batch@.len() as int),
                batch@.len() == batch_len(all, capacity),
            decreases all.len() - batch@.len(),
        {
            let ghost n = batch@.len() as int;
            proof {
                lemma_slots_step(all, n);
                lemma_slots_split(self.items@, 1);
                lemma_slots_split(all.take(n + 1), n);
                lemma_slots_split(self.items@.skip(1), 0);
                assert(self.items@.take(1) =~= seq![all[n]]);
                assert(seq![all[n]].drop_last() =~= Seq::<PredictItem>::empty());
                assert(slots(seq![all[n]]) == all[n].item_count) by {
                    reveal_with_fuel(slots, 2);
                }
                assert(self.items@.skip(1) =~= all.skip(n + 1));
            }
            let item: PredictItem = match self.items.pop_front() {
                Some(item) => item,
                None => {
                    assert(false);
                    break;
                },
            };
            assert(self.items@ =~= all.skip(n + 1));
            total = total + item.item_count as u128;
            self.total_items = self.total_items - item.item_count as u128;
            batch.push(item);
            assert(batch@ =~= all.take(n + 1));
            assert(forall|i: int| 0 <= i < self.items@.len() ==> #[trigger] self.items@[i] == all[i + n + 1]);
            assert(batch_len(all, capacity) == batch_len_from(all, capacity, n + 1));
            if self.items.len() == 0 {
                break;
            }
            if total >= capacity as u128 {
                assert(batch_ends(all, capacity, n + 1));
                break;
            }
            proof {
                lemma_slots_step(all, n + 1);
            }
            let next: usize = self.items[0].item_count;
            assert(self.items@[0] == all[n + 1]);
            if total + next as u128 > capacity as u128 {
                assert(batch_ends(all, capacity, n + 1));
                break;
            }
        }
        batch
    }
}

/// Whether a queue may be flushed: it fills a batch, or its deadline has passed.
pub open spec fn eligible(items: Seq<PredictItem>, capacity: usize, now: u64) -> bool {
    slots(items) >= capacity || due(items) <= now
}

/// Whether a queue goes before another: earlier deadline, then earlier arrival.
pub open spec fn precedes(a: Seq<PredictItem>, b: Seq<PredictItem>) -> bool {
    due(a) < due(b) || (due(a) == due(b) && a[0].arrival < b[0].arrival)
}

/// Whether a key's queue is the next to flush: it is eligible, and goes before
/// every other eligible one.
pub open spec fn is_next(
    queues: Map<Seq<char>, Seq<PredictItem>>,
    capacity: usize,
    now: u64,
    key: Seq<char>,
) -> bool {
    &&& queues.dom().contains(key)
    &&& eligible(queues[key], capacity, now)
    &&& forall|k: Seq<char>| #[trigger]
        queues.dom().contains(k) && k != key && eligible(queues[k], capacity, now) ==> precedes(
            queues[key],
            queues[k],
        )
}

/// The queues after a key's batch is taken; an emptied queue is dropped.
pub open spec fn after_flush(
    queues: Map<Seq<char>, Seq<PredictItem>>,
    capacity: usize,
    key: Seq<char>,
) -> Map<Seq<char>, Seq<PredictItem>> {
    let n = batch_len(queues[key], capacity);
    if n == queues[key].len() {
        queues.remove(key)
    } else {
        queues.insert(key, queues[key].skip(n))
    }
}

/// The queues after a request is filed.
pub open spec fn after_file(
    queues: Map<Seq<char>, Seq<PredictItem>>,
    item: PredictItem,
) -> Map<Seq<char>, Seq<PredictItem>> {
    let key = item.batch_key@;
    if queues.dom().contains(key) {
        queues.insert(key, queues[key].push(item))
    } else {
        queues.insert(key, seq![item])
    }
}

/// Whether a batch is the one that is flushed at a time, and what it leaves.
pub open spec fn is_flushed(
    batch: Seq<PredictItem>,
    before: Map<Seq<char>, Seq<PredictItem>>,
    after: Map<Seq<char>, Seq<PredictItem>>,
    capacity: usize,
    now: u64,
) -> bool {
    exists|k: Seq<char>| #[trigger]
        is_next(before, capacity, now, k) && batch == before[k].take(batch_len(before[k], capacity))
            && after == after_flush(before, capacity, k)
}

/// Whether no queue may be flushed.
pub open spec fn none_eligible(
    queues: Map<Seq<char>, Seq<PredictItem>>,
    capacity: usize,
    now: u64,
) -> bool {
    forall|k: Seq<char>| #[trigger]
        queues.dom().contains(k) ==> !eligible(queues[k], capacity, now)
}

/// Whether a time is the earliest at which a queue is due.
pub open spec fn is_earliest(
    deadline: u128,
    queues: Map<Seq<char>, Seq<PredictItem>>,
) -> bool {
    &&& exists|k: Seq<char>| #[trigger] queues.dom().contains(k) && due(queues[k]) == deadline
    &&& forall|k: Seq<char>| #[trigger] queues.dom().contains(k) ==> deadline <= due(queues[k])
}

/// Accumulator of one buffered model: requests by batch key.
#[derive(Debug)]
pub struct BufferedWorker {
    queues: Vec<KeyQueue>,
    arrivals: u64,
    params: NameSet,
    capacity: usize,
}

impl View for BufferedWorker {
    type V = Map<Seq<char>, Seq<PredictItem>>;

    closed spec fn view(&self) -> Map<Seq<char>, Seq<PredictItem>> {
        Map::new(
            |key: Seq<char>|
                exists|i: int|
                    0 <= i < self.queues@.len() && (#[trigger] self.queues@[i]).key_text() == key,
            |key: Seq<char>| self.queues@[self.find(key)]@,
        )
    }
}

/// What the accumulator does next.
#[derive(Debug)]
pub enum WorkerStep {
    /// Invoke the model on a batch.
    Flush(Vec<PredictItem>),
    /// Wait for a request, but no longer than until a queue is due.
    WaitUntil(u128),
    /// Wait for a request.
    Wait,
}

/// Whether a step is what to do next, and what it leaves.
pub open spec fn is_step(
    step: WorkerStep,
    before: Map<Seq<char>, Seq<PredictItem>>,
    after: Map<Seq<char>, Seq<PredictItem>>,
    capacity: usize,
    now: u64,
) -> bool {
    match step {
        WorkerStep::Flush(batch) => is_flushed(batch@, before, after, capacity, now),
        WorkerStep::WaitUntil(deadline) => {
            &&& after == before
            &&& deadline > now
            &&& is_earliest(deadline, before)
            &&& none_eligible(before, capacity, now)
        },
        WorkerStep::Wait => after == before && before
            == Map::<Seq<char>, Seq<PredictItem>>::empty(),
    }
}

impl BufferedWorker {
    spec fn find(&self, key: Seq<char>) -> int {
        choose|i: int| 0 <= i < self.queues@.len() && (#[trigger] self.queues@[i]).key_text() == key
    }

    /// Most slots in one batch.
    pub closed spec fn batch_capacity(&self) -> usize {
        self.capacity
    }

    /// Parameters that are merged across requests.
    pub closed spec fn batch_params(&self) -> NameSet {
        self.params
    }

    /// How many requests were filed.
    pub closed spec fn filed(&self) -> u64 {
        self.arrivals
    }

    /// Keys are distinct and queues nonempty; requests stand in each queue in
    /// the order of filing, and no two were filed at the same place.
    pub closed spec fn wf(&self) -> bool {
        &&& self.params.wf()
        &&& forall|i: int|
            0 <= i < self.queues@.len() ==> (#[trigger] self.queues@[i]).wf()
                && self.queues@[i]@.len() > 0
        &&& forall|i: int, j: int|
            0 <= i < j < self.queues@.len() ==> (#[trigger] self.queues@[i]).key_text() != (
            #[trigger] self.queues@[j]).key_text()
        &&& forall|i: int, a: int|
            0 <= i < self.queues@.len() && 0 <= a < self.queues@[i]@.len() ==> (
            #[trigger] self.queues@[i]@[a]).arrival < self.arrivals
        &&& forall|i: int, a: int, b: int|
            0 <= i < self.queues@.len() && 0 <= a < b < self.queues@[i]@.len() ==> (
            #[trigger] self.queues@[i]@[a]).arrival < (#[trigger] self.queues@[i]@[b]).arrival
        &&& forall|i: int, a: int, j: int, b: int|
            0 <= i < j < self.queues@.len() && 0 <= a < self.queues@[i]@.len() && 0 <= b
                < self.queues@[j]@.len() ==> (#[trigger] self.queues@[i]@[a]).arrival != (
            #[trigger] self.queues@[j]@[b]).arrival
    }

    proof fn lemma_at(&self, i: int)
        requires
            self.wf(),
            0 <= i < self.queues@.len(),
        ensures
            self@.dom().contains(self.queues@[i].key_text()),
            self@[self.queues@[i].key_text()] == self.queues@[i]@,
            self.find(self.queues@[i].key_text()) == i,
    {
        let key = self.queues@[i].key_text();
        let j = self.find(key);
        assert(0 <= j < self.queues@.len() && self.queues@[j].key_text() == key);
        if i < j {
            assert(self.queues@[i].key_text() != self.queues@[j].key_text());
        }
        if j < i {
            assert(self.queues@[j].key_text() != self.queues@[i].key_text());
        }
    }

    /// An accumulator without requests.
    pub fn new(params: NameSet, capacity: usize) -> (r: BufferedWorker)
        requires
            params.wf(),
        ensures
            r.wf(),
            r@ == Map::<Seq<char>, Seq<PredictItem>>::empty(),
            r.batch_capacity() == capacity,
            r.batch_params() == params,
            r.filed() == 0,
    {
        let r = BufferedWorker { queues: Vec::new(), arrivals: 0, params, capacity };
        assert(r@ =~= Map::<Seq<char>, Seq<PredictItem>>::empty());
        r
    }

    /// Whether another request can be filed.
    pub fn has_room(&self) -> (r: bool)
        ensures
            r == (self.filed() < u64::MAX),
    {
        self.arrivals < u64::MAX
    }

    /// Files a request into its key's queue, creating the queue on first use.
    pub fn file_item(&mut self, item: PredictItem)
        requires
            old(self).wf(),
            old(self).filed() < u64::MAX,
        ensures
            final(self).wf(),
            final(self).batch_capacity() == old(self).batch_capacity(),
            final(self).batch_params() == old(self).batch_params(),
            final(self).filed() == old(self).filed() + 1,
            final(self)@ == after_file(
                old(self)@,
                (PredictItem { arrival: old(self).filed(), ..item }),
            ),
    {
        let ghost before = *self;
        let mut item: PredictItem = item;
        item.arrival = self.arrivals;
        let ghost filed = item;
        let ghost key = item.batch_key@;
        let mut i: usize = 0;
        while i < self.queues.len()
            invariant
                i <= self.queues@.len(),
                *self == before,
                key == item.batch_key@,
                forall|j: int| 0 <= j < i ==> (#[trigger] self.queues@[j]).key_text() != key,
            ensures
                i <= self.queues@.len(),
                *self == before,
                forall|j: int| 0 <= j < i ==> (#[trigger] self.queues@[j]).key_text() != key,
                i < self.queues@.len() ==> self.queues@[i as int].key_text() == key,
            decreases self.queues.len() - i,
        {
            if same_text(self.queues[i].key.as_str(), item.batch_key.as_str()) {
                break;
            }
            i = i + 1;
        }
        if i == self.queues.len() {
            let queue: KeyQueue = KeyQueue::new(item.batch_key.as_str());
            self.queues.push(queue);
        }
        let ghost middle = self.queues@;
        let queue: &mut KeyQueue = &mut self.queues[i];
        queue.push(item);
        self.arrivals = self.arrivals + 1;
        proof {
            assert(self.queues@ =~= middle.update(i as int, self.queues@[i as int]));
            assert(forall|j: int|
                0 <= j < self.queues@.len() && j != i ==> (#[trigger] self.queues@[j]) == before.queues@[j]);
            let old_items = middle[i as int]@;
            assert(self.queues@[i as int]@ == old_items.push(filed));
            assert(self.wf());
            let target = after_file(before@, filed);
            if i < before.queues@.len() {
                before.lemma_at(i as int);
            } else {
                assert(!before@.dom().contains(key));
                assert(old_items.push(filed) =~= seq![filed]);
            }
            assert forall|k: Seq<char>| #[trigger] target.dom().contains(k) implies self@.dom().contains(k)
                && self@[k] == target[k] by {
                if k == key {
                    self.lemma_at(i as int);
                } else {
                    let j = before.find(k);
                    assert(0 <= j < before.queues@.len() && before.queues@[j].key_text() == k);
                    before.lemma_at(j);
                    self.lemma_at(j);
                }
            }
            assert forall|k: Seq<char>| #[trigger] self@.dom().contains(k) implies target.dom().contains(
                k,
            ) by {
                let j = self.find(k);
                assert(0 <= j < self.queues@.len() && self.queues@[j].key_text() == k);
                if j != i {
                    before.lemma_at(j);
                }
            }
            assert(self@.dom() =~= target.dom());
            assert(self@ =~= target);
        }
    }

    /// The position of the next queue to flush.
    fn next_queue(&self, now: u64) -> (r: Option<usize>)
        requires
            self.wf(),
        ensures
            match r {
                None => forall|i: int|
                    0 <= i < self.queues@.len() ==> !eligible(
                        (#[trigger] self.queues@[i])@,
                        self.capacity,
                        now,
                    ),
                Some(at) => {
                    &&& at < self.queues@.len()
                    &&& eligible(self.queues@[at as int]@, self.capacity, now)
                    &&& forall|i: int|
                        0 <= i < self.queues@.len() && i != at && eligible(
                            (#[trigger] self.queues@[i])@,
                            self.capacity,
                            now,
                        ) ==> precedes(self.queues@[at as int]@, self.queues@[i]@)
                },
            },
    {
        let mut best: Option<usize> = None;
        let mut i: usize = 0;
        while i < self.queues.len()
            invariant
                self.wf(),
                i <= self.queues@.len(),
                match best {
                    None => forall|j: int|
                        0 <= j < i ==> !eligible(
                            (#[trigger] self.queues@[j])@,
                            self.capacity,
                            now,
                        ),
                    Some(at) => {
                        &&& at < i
                        &&& eligible(self.queues@[at as int]@, self.capacity, now)
                        &&& forall|j: int|
                            0 <= j < i && j != at && eligible(
                                (#[trigger] self.queues@[j])@,
                                self.capacity,
                                now,
                            ) ==> precedes(self.queues@[at as int]@, self.queues@[j]@)
                    },
                },
            decreases self.queues.len() - i,
        {
            let queue: &KeyQueue = &self.queues[i];
            assert(self.queues@[i as int].wf() && self.queues@[i as int]@.len() > 0);
            if queue.total_items >= self.capacity as u128 || queue.deadline() <= now as u128 {
                let first: bool = match best {
                    None => true,
                    Some(at) => {
                        assert(self.queues@[at as int].wf() && self.queues@[at as int]@.len() > 0);
                        let other: &KeyQueue = &self.queues[at];
                        let mine: u128 = queue.deadline();
                        let theirs: u128 = other.deadline();
                        assert(self.queues@[at as int]@[0].arrival != self.queues@[i as int]@[0].arrival);
                        mine < theirs || (mine == theirs && queue.items[0].arrival
                            < other.items[0].arrival)
                    },
                };
                if first {
                    best = Some(i);
                }
            }
            i = i + 1;
        }
        best
    }

    /// Takes the next batch to flush: among keys at capacity or past their
    /// deadline, the earliest deadline first, arrival order breaking ties.
    /// Emptied queues are dropped.
    pub fn take_flushable(&mut self, now: u64) -> (r: Option<Vec<PredictItem>>)
        requires
            old(self).wf(),
        ensures
            final(self).wf(),
            final(self).batch_capacity() == old(self).batch_capacity(),
            final(self).batch_params() == old(self).batch_params(),
            final(self).filed() == old(self).filed(),
            match r {
                None => final(self)@ == old(self)@ && none_eligible(
                    old(self)@,
                    old(self).batch_capacity(),
                    now,
                ),
                Some(batch) => is_flushed(
                    batch@,
                    old(self)@,
                    final(self)@,
                    old(self).batch_capacity(),
                    now,
                ),
            },
    {
        let ghost before = *self;
        let at: usize = match self.next_queue(now) {
            None => {
                proof {
                    assert forall|k: Seq<char>| #[trigger] self@.dom().contains(k) implies !eligible(
                        self@[k],
                        self.capacity,
                        now,
                    ) by {
                        let j = self.find(k);
                        assert(0 <= j < self.queues@.len() && self.queues@[j].key_text() == k);
                        self.lemma_at(j);
                    }
                }
                return None;
            },
            Some(at) => at,
        };
        let ghost key = self.queues@[at as int].key_text();
        let ghost items = self.queues@[at as int]@;
        proof {
            assert(self.queues@[at as int].wf());
            before.lemma_at(at as int);
            assert forall|k: Seq<char>| #[trigger]
                before@.dom().contains(k) && k != key && eligible(
                    before@[k],
                    before.capacity,
                    now,
                ) implies precedes(before@[key], before@[k]) by {
                let j = before.find(k);
                assert(0 <= j < before.queues@.len() && before.queues@[j].key_text() == k);
                before.lemma_at(j);
            }
            assert(is_next(before@, before.capacity, now, key));
        }
        let capacity: usize = self.capacity;
        let queue: &mut KeyQueue = &mut self.queues[at];
        let batch: Vec<PredictItem> = queue.take_batch(capacity);
        let ghost middle = self.queues@;
        let ghost n = batch_len(items, capacity);
        proof {
            assert(middle =~= before.queues@.update(at as int, middle[at as int]));
            assert(middle[at as int]@ == items.skip(n));
            assert forall|a: int| 0 <= a < middle[at as int]@.len() implies (
            #[trigger] middle[at as int]@[a]) == before.queues@[at as int]@[a + n] by {}
        }
        if self.queues[at].items.len() == 0 {
            let emptied: KeyQueue = self.queues.swap_remove(at);
            proof {
                assert(n == items.len());
                let last = middle.len() - 1;
                assert forall|j: int| 0 <= j < self.queues@.len() implies (
                #[trigger] self.queues@[j]) == before.queues@[if j == at {
                    last
                } else {
                    j
                }] by {}
                self.lemma_shrunk(before, at as int);
            }
        } else {
            proof {
                assert(items.skip(n).len() > 0);
                self.lemma_trimmed(before, at as int, n);
            }
        }
        proof {
            assert(batch@ == before@[key].take(n));
            assert(self@ == after_flush(before@, before.batch_capacity(), key));
            assert(is_next(before@, before.batch_capacity(), now, key));
        }
        Some(batch)
    }

    /// Dropping a queue, with the last one in its place, drops its key.
    proof fn lemma_shrunk(&self, before: BufferedWorker, at: int)
        requires
            before.wf(),
            0 <= at < before.queues@.len(),
            self.params == before.params,
            self.capacity == before.capacity,
            self.arrivals == before.arrivals,
            self.queues@.len() == before.queues@.len() - 1,
            forall|j: int|
                0 <= j < self.queues@.len() ==> (#[trigger] self.queues@[j])
                    == before.queues@[if j == at {
                    before.queues@.len() - 1
                } else {
                    j
                }],
        ensures
            self.wf(),
            self@ == before@.remove(before.queues@[at].key_text()),
    {
        let last = before.queues@.len() - 1;
        let key = before.queues@[at].key_text();
        assert forall|i: int, j: int| 0 <= i < j < self.queues@.len() implies (
        #[trigger] self.queues@[i]).key_text() != (#[trigger] self.queues@[j]).key_text() by {
            let i0 = if i == at { last } else { i };
            let j0 = if j == at { last } else { j };
            if i0 < j0 {
                assert(before.queues@[i0].key_text() != before.queues@[j0].key_text());
            } else {
                assert(before.queues@[j0].key_text() != before.queues@[i0].key_text());
            }
        }
        assert forall|i: int, a: int, j: int, b: int|
            0 <= i < j < self.queues@.len() && 0 <= a < self.queues@[i]@.len() && 0 <= b
                < self.queues@[j]@.len() implies (#[trigger] self.queues@[i]@[a]).arrival != (
        #[trigger] self.queues@[j]@[b]).arrival by {
            let i0 = if i == at { last } else { i };
            let j0 = if j == at { last } else { j };
            if i0 < j0 {
                assert(before.queues@[i0]@[a].arrival != before.queues@[j0]@[b].arrival);
            } else {
                assert(before.queues@[j0]@[b].arrival != before.queues@[i0]@[a].arrival);
            }
        }
        assert(self.wf());
        let target = before@.remove(key);
        assert forall|k: Seq<char>| #[trigger] target.dom().contains(k) implies self@.dom().contains(
            k,
        ) && self@[k] == target[k] by {
            let j = before.find(k);
            assert(0 <= j < before.queues@.len() && before.queues@[j].key_text() == k);
            before.lemma_at(j);
            let j0 = if j == last { at } else { j };
            assert(self.queues@[j0] == before.queues@[j]);
            self.lemma_at(j0);
        }
        assert forall|k: Seq<char>| #[trigger] self@.dom().contains(k) implies target.dom().contains(
            k,
        ) by {
            let j = self.find(k);
            assert(0 <= j < self.queues@.len() && self.queues@[j].key_text() == k);
            let j0 = if j == at { last } else { j };
            before.lemma_at(j0);
            before.lemma_at(at);
        }
        assert(self@.dom() =~= target.dom());
        assert(self@ =~= target);
    }

    /// Trimming the front of a queue leaves the others.
    proof fn lemma_trimmed(&self, before: BufferedWorker, at: int, n: int)
        requires
            before.wf(),
            0 <= at < before.queues@.len(),
            0 <= n < before.queues@[at]@.len(),
            self.params == before.params,
            self.capacity == before.capacity,
            self.arrivals == before.arrivals,
            self.queues@.len() == before.queues@.len(),
            self.queues@[at].wf(),
            self.queues@[at].key_text() == before.queues@[at].key_text(),
            self.queues@[at]@ == before.queues@[at]@.skip(n),
            forall|j: int|
                0 <= j < self.queues@.len() && j != at ==> (#[trigger] self.queues@[j])
                    == before.queues@[j],
        ensures
            self.wf(),
            self@ == before@.insert(
                before.queues@[at].key_text(),
                before.queues@[at]@.skip(n),
            ),
    {
        let key = before.queues@[at].key_text();
        assert forall|i: int, a: int|
            0 <= i < self.queues@.len() && 0 <= a < self.queues@[i]@.len() implies (
        #[trigger] self.queues@[i]@[a]) == before.queues@[i]@[if i == at {
            a + n
        } else {
            a
        }] by {}
        assert(self.wf());
        let target = before@.insert(key, before.queues@[at]@.skip(n));
        assert forall|k: Seq<char>| #[trigger] target.dom().contains(k) implies self@.dom().contains(
            k,
        ) && self@[k] == target[k] by {
            if k == key {
                self.lemma_at(at);
            } else {
                let j = before.find(k);
                assert(0 <= j < before.queues@.len() && before.queues@[j].key_text() == k);
                before.lemma_at(j);
                self.lemma_at(j);
            }
        }
        assert forall|k: Seq<char>| #[trigger] self@.dom().contains(k) implies target.dom().contains(
            k,
        ) by {
            let j = self.find(k);
            assert(0 <= j < self.queues@.len() && self.queues@[j].key_text() == k);
            before.lemma_at(j);
        }
        assert(self@.dom() =~= target.dom());
        assert(self@ =~= target);
    }

    /// The earliest deadline of a queue, if there is one.
    pub fn earliest_deadline(&self) -> (r: Option<u128>)
        requires
            self.wf(),
        ensures
            match r {
                None => self@ == Map::<Seq<char>, Seq<PredictItem>>::empty(),
                Some(deadline) => is_earliest(deadline, self@),
            },
    {
        let mut best: Option<u128> = None;
        let mut i: usize = 0;
        while i < self.queues.len()
            invariant
                self.wf(),
                i <= self.queues@.len(),
                match best {
                    None => i == 0,
                    Some(deadline) => {
                        &&& exists|j: int| 0 <= j < i && due((#[trigger] self.queues@[j])@) == deadline
                        &&& forall|j: int|
                            0 <= j < i ==> deadline <= due((#[trigger] self.queues@[j])@)
                    },
                },
            decreases self.queues.len() - i,
        {
            assert(self.queues@[i as int]@.len() > 0);
            let deadline: u128 = self.queues[i].deadline();
            let earlier: bool = match best {
                None => true,
                Some(least) => deadline < least,
            };
            if earlier {
                best = Some(deadline);
            }
            i = i + 1;
        }
        proof {
            match best {
                None => {
                    assert(self@ =~= Map::<Seq<char>, Seq<PredictItem>>::empty());
                },
                Some(deadline) => {
                    let j = choose|j: int|
                        0 <= j < self.queues@.len() && due((#[trigger] self.queues@[j])@)
                            == deadline;
                    self.lemma_at(j);
                    assert(self@.dom().contains(self.queues@[j].key_text()));
                    assert forall|k: Seq<char>| #[trigger] self@.dom().contains(k) implies deadline
                        <= due(self@[k]) by {
                        let j = self.find(k);
                        assert(0 <= j < self.queues@.len() && self.queues@[j].key_text() == k);
                        self.lemma_at(j);
                    }
                },
            }
        }
        best
    }

    /// What to do next: flush a batch if one may be flushed, else wait for a
    /// request, but no longer than until the earliest deadline.
    pub fn next(&mut self, now: u64) -> (r: WorkerStep)
        requires
            old(self).wf(),
        ensures
            final(self).wf(),
            final(self).batch_capacity() == old(self).batch_capacity(),
            final(self).batch_params() == old(self).batch_params(),
            final(self).filed() == old(self).filed(),
            is_step(r, old(self)@, final(self)@, old(self).batch_capacity(), now),
    {
        match self.take_flushable(now) {
            Some(batch) => WorkerStep::Flush(batch),
            None => match self.earliest_deadline() {
                Some(deadline) => WorkerStep::WaitUntil(deadline),
                None => WorkerStep::Wait,
            },
        }
    }
}

/// The item counts of requests.
pub open spec fn counts_of(batch: Seq<PredictItem>) -> Seq<usize> {
    batch.map_values(|item: PredictItem| item.item_count)
}

/// The inputs of requests, as maps.
pub open spec fn maps_of(batch: Seq<PredictItem>) -> Seq<Map<Seq<char>, ValueView>> {
    batch.map_values(|item: PredictItem| item.inputs@)
}

/// The item counts of a batch.
pub fn batch_counts(batch: &Vec<PredictItem>) -> (r: Vec<usize>)
    ensures
        r@ == counts_of(batch@),
{
    let mut counts: Vec<usize> = Vec::new();
    let mut i: usize = 0;
    while i < batch.len()
        invariant
            i <= batch@.len(),
            counts@ == counts_of(batch@.take(i as int)),
        decreases batch.len() - i,
    {
        counts.push(batch[i].item_count);
        assert(counts@ =~= counts_of(batch@.take(i + 1)));
        i = i + 1;
    }
    assert(batch@.take(batch@.len() as int) =~= batch@);
    counts
}

/// The samples of a batch's requests.
pub open spec fn samples_of(batch: Seq<PredictItem>, dispatched: u64, now: u64) -> Seq<
    PredictionSample,
> {
    batch.map_values(|item: PredictItem| stats::unary(item.enqueued, dispatched, now))
}

/// The samples of a batch's requests. Each waited by itself, from its arrival to
/// the dispatch; merged requests complete together, so they share the latency.
pub fn batch_samples(batch: &Vec<PredictItem>, dispatched: u64, now: u64) -> (r: Vec<
    PredictionSample,
>)
    ensures
        r@ == samples_of(batch@, dispatched, now),
{
    let mut samples: Vec<PredictionSample> = Vec::new();
    let mut i: usize = 0;
    while i < batch.len()
        invariant
            i <= batch@.len(),
            samples@.len() == i,
            forall|j: int|
                0 <= j < i ==> (#[trigger] samples@[j]) == stats::unary(
                    batch@[j].enqueued,
                    dispatched,
                    now,
                ),
        decreases batch.len() - i,
    {
        samples.push(unary_sample(batch[i].enqueued, dispatched, now));
        i = i + 1;
    }
    assert(samples@ =~= samples_of(batch@, dispatched, now));
    samples
}

/// Whether an answer is that of a queued request by what its accumulator replied.
pub open spec fn is_reply(
    r: Result<Prediction, PredictError>,
    reply: Option<Result<Prediction, PredictError>>,
) -> bool {
    match reply {
        Some(answer) => r == answer,
        None => r matches Err(PredictError::Native(m)) && m@ == "prediction task dropped"@,
    }
}

/// The answer of a queued request: what its accumulator replied, or an error
/// where it ended without a reply.
pub fn answer_of(reply: Option<Result<Prediction, PredictError>>) -> (r: Result<
    Prediction,
    PredictError,
>)
    ensures
        is_reply(r, reply),
{
    match reply {
        Some(answer) => answer,
        None => Err(PredictError::Native("prediction task dropped".to_owned())),
    }
}

/// The acceleration of a batch's invocation.
pub open spec fn acceleration_of(batch: Seq<PredictItem>) -> Acceleration {
    batch[0].acceleration
}

/// The one invocation of a batch: the merged inputs, and the acceleration of
/// the first request.
pub fn invocation(batch: &Vec<PredictItem>, params: &NameSet) -> (r: (Inputs, Acceleration))
    requires
        batch@.len() >= 1,
        params.wf(),
        forall|i: int| 0 <= i < batch@.len() ==> (#[trigger] batch@[i]).inputs.wf(),
    ensures
        r.0.wf(),
        r.0@ == merge::merged(maps_of(batch@), params@),
        r.1 == acceleration_of(batch@),
{
    let mut inputs: Vec<&Inputs> = Vec::new();
    let mut i: usize = 0;
    while i < batch.len()
        invariant
            i <= batch@.len(),
            inputs@.len() == i,
            forall|j: int| 0 <= j < i ==> *(#[trigger] inputs@[j]) == batch@[j].inputs,
        decreases batch.len() - i,
    {
        inputs.push(&batch[i].inputs);
        i = i + 1;
    }
    assert(merge::input_maps(inputs@) =~= maps_of(batch@));
    assert forall|i: int| 0 <= i < inputs@.len() implies (#[trigger] inputs@[i]).wf() by {
        assert(batch@[i].inputs.wf());
    }
    (merge_inputs(&inputs, params), batch[0].acceleration.clone())
}

/// The results of a prediction; none where it has none.
pub open spec fn results_of(prediction: PredictionView) -> Seq<ValueView> {
    match prediction.results {
        Some(values) => values,
        None => Seq::empty(),
    }
}

/// Whether an answer is what a request gets of the outcome of a batch: the
/// outcome itself where the request was alone, else its share of the results,
/// or the error's message.
pub open spec fn is_answer(
    answer: Result<Prediction, PredictError>,
    outcome: Result<Prediction, PredictError>,
    counts: Seq<usize>,
    i: int,
) -> bool {
    if counts.len() == 1 {
        answer == outcome
    } else {
        match outcome {
            Ok(prediction) => answer matches Ok(p) && p@ == (PredictionView {
                results: Some(merge::shares(results_of(prediction@), counts, i)),
                ..prediction@
            }),
            Err(e) => answer matches Err(PredictError::Native(m)) && m@
                == prediction::error_message(e),
        }
    }
}

/// Whether the outcome of a batch can be split.
pub open spec fn outcome_splits(
    outcome: Result<Prediction, PredictError>,
    counts: Seq<usize>,
) -> bool {
    outcome matches Ok(prediction) ==> (counts.len() != 1 ==> merge::results_split(
        results_of(prediction@),
        counts,
    ))
}

/// Answers each request of a batch from the outcome of its one invocation.
pub fn answers(outcome: Result<Prediction, PredictError>, counts: &Vec<usize>) -> (r: Vec<
    Result<Prediction, PredictError>,
>)
    requires
        outcome_splits(outcome, counts@),
    ensures
        r@.len() == counts@.len(),
        forall|i: int|
            0 <= i < counts@.len() ==> is_answer(#[trigger] r@[i], outcome, counts@, i),
{
    let mut out: Vec<Result<Prediction, PredictError>> = Vec::new();
    if counts.len() == 1 {
        out.push(outcome);
        return out;
    }
    match &outcome {
        Ok(prediction) => {
            let none: Vec<Value> = Vec::new();
            let results: &Vec<Value> = match &prediction.results {
                Some(values) => values,
                None => &none,
            };
            assert(merge::value_views(results@) =~= results_of(prediction@));
            let mut splits: Vec<Vec<Value>> = split_results(results, counts);
            let ghost all = splits@;
            while splits.len() > 0
                invariant
                    outcome == Ok::<Prediction, PredictError>(*prediction),
                    counts@.len() != 1,
                    all.len() == counts@.len(),
                    forall|i: int|
                        0 <= i < counts@.len() ==> merge::value_views((#[trigger] all[i])@)
                            == merge::shares(results_of(prediction@), counts@, i),
                    splits@.len() + out@.len() == all.len(),
                    splits@ == all.skip(out@.len() as int),
                    forall|i: int|
                        0 <= i < out@.len() ==> is_answer(#[trigger] out@[i], outcome, counts@, i),
                decreases splits@.len(),
            {
                let ghost i = out@.len() as int;
                let split: Vec<Value> = splits.remove(0);
                assert(split == all[i]);
                out.push(Ok(prediction.with_results(split)));
                assert(splits@ =~= all.skip(i + 1));
                assert(is_answer(out@[i], outcome, counts@, i));
            }
        },
        Err(e) => {
            let mut i: usize = 0;
            while i < counts.len()
                invariant
                    outcome == Err::<Prediction, PredictError>(*e),
                    counts@.len() != 1,
                    i <= counts@.len(),
                    out@.len() == i,
                    forall|j: int|
                        0 <= j < out@.len() ==> is_answer(#[trigger] out@[j], outcome, counts@, j),
                decreases counts.len() - i,
            {
                out.push(Err(PredictError::Native(e.message())));
                i = i + 1;
            }
        },
    }
    out
}

/// Slots of requests are the sum of their item counts.
proof fn lemma_slots_total(batch: Seq<PredictItem>)
    ensures
        slots(batch) == merge::total_of(counts_of(batch)),
    decreases batch.len(),
{
    if batch.len() > 0 {
        lemma_slots_total(batch.drop_last());
        assert(counts_of(batch).drop_last() =~= counts_of(batch.drop_last()));
    }
}

/// A batch fits in the capacity, unless it is a single request.
pub proof fn law_batch_fits(items: Seq<PredictItem>, capacity: usize)
    requires
        items.len() > 0,
    ensures
        1 <= batch_len(items, capacity) <= items.len(),
        batch_len(items, capacity) == 1 || slots(items.take(batch_len(items, capacity))) <= capacity,
        merge::total_of(counts_of(items.take(batch_len(items, capacity)))) <= usize::MAX,
{
    let n = batch_len(items, capacity);
    lemma_batch_len(items, capacity, 1);
    if n > 1 {
        assert(!batch_ends(items, capacity, n - 1));
    } else {
        assert(items.take(1).drop_last().len() == 0);
        reveal_with_fuel(slots, 2);
    }
    lemma_slots_total(items.take(n));
}

/// Where every request occupies a slot, a batch is the largest prefix that fits.
pub proof fn law_batch_is_largest(items: Seq<PredictItem>, capacity: usize, n: int)
    requires
        items.len() > 0,
        forall|i: int| 0 <= i < items.len() ==> (#[trigger] items[i]).item_count >= 1,
        batch_len(items, capacity) < n <= items.len(),
    ensures
        slots(items.take(n)) > capacity,
{
    let m = batch_len(items, capacity);
    lemma_batch_len(items, capacity, 1);
    lemma_slots_step(items, m);
    assert(slots(items.take(m + 1)) > capacity);
    lemma_slots_split(items.take(n), m + 1);
    assert(items.take(n).take(m + 1) =~= items.take(m + 1));
}

/// Flushing loses no request and keeps the order: a queue is its batch followed
/// by what is left of it, and the other queues stay as they are.
pub proof fn law_flush_keeps_requests(
    queues: Map<Seq<char>, Seq<PredictItem>>,
    capacity: usize,
    key: Seq<char>,
)
    requires
        queues.dom().contains(key),
        queues[key].len() > 0,
    ensures
        queues[key] == queues[key].take(batch_len(queues[key], capacity)) + (if after_flush(
            queues,
            capacity,
            key,
        ).dom().contains(key) {
            after_flush(queues, capacity, key)[key]
        } else {
            Seq::empty()
        }),
        forall|k: Seq<char>|
            k != key ==> (#[trigger] after_flush(queues, capacity, key).dom().contains(k)
                <==> queues.dom().contains(k)),
        forall|k: Seq<char>|
            k != key && #[trigger] queues.dom().contains(k) ==> after_flush(
                queues,
                capacity,
                key,
            )[k] == queues[k],
{
    let n = batch_len(queues[key], capacity);
    lemma_batch_len(queues[key], capacity, 1);
    assert(queues[key] =~= queues[key].take(n) + queues[key].skip(n));
    if n == queues[key].len() {
        assert(queues[key] =~= queues[key].take(n) + Seq::<PredictItem>::empty());
    }
}

/// A queue's deadline is anchored at its oldest request: filing more requests
/// does not move it, and flushing another key does not either.
pub proof fn law_deadline_anchored(
    queues: Map<Seq<char>, Seq<PredictItem>>,
    capacity: usize,
    item: PredictItem,
    flushed: Seq<char>,
    key: Seq<char>,
)
    requires
        queues.dom().contains(key),
        queues[key].len() > 0,
        queues.dom().contains(flushed),
        flushed != key,
    ensures
        due(after_file(queues, item)[key]) == due(queues[key]),
        due(after_flush(queues, capacity, flushed)[key]) == due(queues[key]),
{
}

/// A queue that is not eligible becomes so at its deadline.
pub proof fn law_due_is_eligible(items: Seq<PredictItem>, capacity: usize, now: u64)
    requires
        due(items) <= now,
    ensures
        eligible(items, capacity, now),
{
}

/// A key that may be flushed is passed over only for a batch whose first request
/// was dispatched no later than its own, and neither that batch nor a request
/// that is filed meanwhile moves it back.
pub proof fn law_no_key_is_overtaken(
    queues: Map<Seq<char>, Seq<PredictItem>>,
    capacity: usize,
    now: u64,
    flushed: Seq<char>,
    key: Seq<char>,
    item: PredictItem,
)
    requires
        is_next(queues, capacity, now, flushed),
        queues.dom().contains(key),
        queues[key].len() > 0,
        eligible(queues[key], capacity, now),
    ensures
        queues[flushed][0].enqueued <= queues[key][0].enqueued,
        after_file(queues, item)[key][0] == queues[key][0],
        flushed != key ==> after_flush(queues, capacity, flushed)[key] == queues[key],
{
}

impl BufferedWorker {
    /// Every queue holds at least one request, and only requests of its key.
    pub proof fn law_queue_shares_key(&self, key: Seq<char>)
        requires
            self.wf(),
            self@.dom().contains(key),
        ensures
            self@[key].len() > 0,
            forall|i: int|
                0 <= i < self@[key].len() ==> (#[trigger] self@[key][i]).batch_key@ == key,
    {
        let j = self.find(key);
        assert(0 <= j < self.queues@.len() && self.queues@[j].key_text() == key);
        self.lemma_at(j);
        assert(self.queues@[j].wf());
    }

    /// Requests of a key are flushed in the order in which they were filed.
    pub proof fn law_queue_is_fifo(&self, key: Seq<char>, a: int, b: int)
        requires
            self.wf(),
            self@.dom().contains(key),
            0 <= a < b < self@[key].len(),
        ensures
            self@[key][a].arrival < self@[key][b].arrival,
    {
        let j = self.find(key);
        assert(0 <= j < self.queues@.len() && self.queues@[j].key_text() == key);
        self.lemma_at(j);
        assert(self.queues@[j]@[a].arrival < self.queues@[j]@[b].arrival);
    }

    /// No two keys are both next to flush.
    pub proof fn law_next_is_unique(&self, now: u64, a: Seq<char>, b: Seq<char>)
        requires
            self.wf(),
            is_next(self@, self.batch_capacity(), now, a),
            is_next(self@, self.batch_capacity(), now, b),
        ensures
            a == b,
    {
        if a != b {
            assert(self@.dom().contains(a) && self@.dom().contains(b));
            assert(precedes(self@[a], self@[b]));
            assert(precedes(self@[b], self@[a]));
        }
    }
}

/// Slots add up: a request more occupies as many more as it has items.
pub proof fn law_slots_add_up(items: Seq<PredictItem>, item: PredictItem)
    ensures
        slots(Seq::empty()) == 0,
        slots(items.push(item)) == slots(items) + item.item_count,
        slots(items) == merge::total_of(counts_of(items)),
{
    assert(items.push(item).drop_last() =~= items);
    lemma_slots_total(items);
}

/// A queue may be flushed exactly where its requests fill the capacity or its first
/// request has waited for a tenth of a second.
pub proof fn law_queues_flush_when_full_or_due(
    items: Seq<PredictItem>,
    capacity: usize,
    now: u64,
)
    requires
        items.len() > 0,
    ensures
        eligible(items, capacity, now) <==> slots(items) >= capacity || now >= items[0].enqueued
            + 100_000_000,
{
}

/// A request waits at the end of the queue of its key, behind all that were filed
/// before it; the other queues stay as they are.
pub proof fn law_requests_are_filed_last(
    queues: Map<Seq<char>, Seq<PredictItem>>,
    item: PredictItem,
)
    ensures
        ({
            let key = item.batch_key@;
            let next = after_file(queues, item);
            &&& next.dom().contains(key)
            &&& next[key].len() > 0 && next[key].last() == item
            &&& next.remove(key) == queues.remove(key)
            &&& queues.dom().contains(key) ==> next[key].drop_last() == queues[key]
            &&& !queues.dom().contains(key) ==> next[key].len() == 1
        }),
{
    let key = item.batch_key@;
    let next = after_file(queues, item);
    assert(next.remove(key) =~= queues.remove(key));
    if queues.dom().contains(key) {
        assert(next[key].drop_last() =~= queues[key]);
    }
}

/// The next key to flush may be flushed, and no other that may be has a first request
/// that waits longer; of two that wait equally long it is the one filed first.
pub proof fn law_longest_wait_goes_first(
    queues: Map<Seq<char>, Seq<PredictItem>>,
    capacity: usize,
    now: u64,
    key: Seq<char>,
    other: Seq<char>,
)
    requires
        is_next(queues, capacity, now, key),
        queues.dom().contains(other),
        other != key,
        slots(queues[other]) >= capacity || now >= queues[other][0].enqueued + 100_000_000,
    ensures
        queues.dom().contains(key),
        slots(queues[key]) >= capacity || now >= queues[key][0].enqueued + 100_000_000,
        queues[key][0].enqueued <= queues[other][0].enqueued,
        queues[key][0].enqueued == queues[other][0].enqueued ==> queues[key][0].arrival
            < queues[other][0].arrival,
{
    assert(eligible(queues[other], capacity, now));
}

/// A batch grows request by request and stops at once when it is complete. Before it
/// ends it is below the capacity and the next request fits; where it ends there is no
/// further request, the capacity is reached, or the next one does not fit.
pub proof fn law_batches_grow_while_they_fit(
    items: Seq<PredictItem>,
    capacity: usize,
    n: int,
)
    requires
        items.len() > 0,
        1 <= n <= batch_len(items, capacity),
    ensures
        n < batch_len(items, capacity) ==> slots(items.take(n)) < capacity && slots(items.take(n))
            + items[n].item_count <= capacity,
        n == batch_len(items, capacity) ==> n == items.len() || slots(items.take(n)) >= capacity
            || slots(items.take(n)) + items[n].item_count > capacity,
{
    lemma_batch_len(items, capacity, 1);
    if n < batch_len(items, capacity) {
        assert(!batch_ends(items, capacity, n));
        lemma_slots_step(items, n);
    } else if n < items.len() {
        lemma_slots_step(items, n);
    }
}

/// A request that was alone gets the outcome itself. One of several gets the
/// prediction with its share of every result and everything else unchanged, or the
/// message of the error.
pub proof fn law_answers_are_shares(
    answer: Result<Prediction, PredictError>,
    outcome: Result<Prediction, PredictError>,
    counts: Seq<usize>,
    i: int,
)
    requires
        is_answer(answer, outcome, counts, i),
    ensures
        counts.len() == 1 ==> answer == outcome,
        answer is Ok <==> outcome is Ok,
        counts.len() != 1 ==> (outcome matches Err(e) ==> (answer matches Err(
            PredictError::Native(m),
        ) && m@ == prediction::error_message(e))),
        counts.len() != 1 ==> (outcome matches Ok(whole) ==> {
            let part = answer->Ok_0@;
            let all = match whole.results {
                Some(values) => values@,
                None => Seq::empty(),
            };
            &&& part.id == whole.id@
            &&& part.tag == whole.tag@
            &&& part.created == whole.created@
            &&& part.latency == whole.latency
            &&& part.error == whole@.error
            &&& part.logs == whole@.logs
            &&& part.results is Some
            &&& part.results->0.len() == all.len()
            &&& forall|k: int|
                0 <= k < all.len() ==> #[trigger] part.results->0[k] == merge::share(
                    all[k]@,
                    counts,
                    i,
                )
        }),
{
}

/// The requests of a batch keep their order and their item counts in what is handed
/// on: each position stands for the same request.
pub proof fn law_positions_are_kept(batch: Seq<PredictItem>, i: int)
    requires
        0 <= i < batch.len(),
    ensures
        counts_of(batch).len() == batch.len(),
        counts_of(batch)[i] == batch[i].item_count,
        maps_of(batch).len() == batch.len(),
        maps_of(batch)[i] == batch[i].inputs@,
{
}

/// The accumulator waits for nothing that may go: it flushes exactly where a queue is full
/// or has waited for a tenth of a second. Otherwise it waits, and no longer than until the
/// first queue is due; without requests it waits for one.
pub proof fn law_nothing_waits_past_its_deadline(
    step: WorkerStep,
    before: Map<Seq<char>, Seq<PredictItem>>,
    after: Map<Seq<char>, Seq<PredictItem>>,
    capacity: usize,
    now: u64,
    key: Seq<char>,
)
    requires
        is_step(step, before, after, capacity, now),
    ensures
        before.dom().contains(key) && (slots(before[key]) >= capacity || now
            >= before[key][0].enqueued + 100_000_000) ==> step is Flush,
        step is Wait ==> !before.dom().contains(key),
        step matches WorkerStep::WaitUntil(deadline) ==> deadline > now && (before.dom().contains(
            key,
        ) ==> deadline <= before[key][0].enqueued + 100_000_000),
        step matches WorkerStep::WaitUntil(deadline) ==> exists|k: Seq<char>| #[trigger]
            before.dom().contains(k) && before[k][0].enqueued + 100_000_000 == deadline,
        !(step is Flush) ==> after == before,
{
    if before.dom().contains(key) && (slots(before[key]) >= capacity || now >= before[key][0].enqueued
        + 100_000_000) {
        assert(eligible(before[key], capacity, now));
    }
    if let WorkerStep::WaitUntil(deadline) = step {
        let k = choose|k: Seq<char>| #[trigger]
            before.dom().contains(k) && due(before[k]) == deadline;
        assert(before.dom().contains(k));
    }
}

/// A batch is the front of one queue that was full or due, and what is left of that queue
/// stays; the other queues are not touched.
pub proof fn law_flushed_batches_are_fronts(
    batch: Seq<PredictItem>,
    before: Map<Seq<char>, Seq<PredictItem>>,
    after: Map<Seq<char>, Seq<PredictItem>>,
    capacity: usize,
    now: u64,
)
    requires
        is_flushed(batch, before, after, capacity, now),
        forall|k: Seq<char>| #[trigger] before.dom().contains(k) ==> before[k].len() > 0,
    ensures
        exists|key: Seq<char>| #[trigger]
            before.dom().contains(key) && batch.len() > 0 && batch == before[key].take(
                batch.len() as int,
            ) && batch.len() <= before[key].len() && (slots(before[key]) >= capacity || now
                >= before[key][0].enqueued + 100_000_000) && after.remove(key) == before.remove(key)
                && (after.dom().contains(key) <==> batch.len() < before[key].len()) && (
            after.dom().contains(key) ==> after[key] == before[key].skip(batch.len() as int)),
{
    let key = choose|k: Seq<char>| #[trigger]
        is_next(before, capacity, now, k) && batch == before[k].take(batch_len(before[k], capacity))
            && after == after_flush(before, capacity, k);
    assert(before.dom().contains(key));
    lemma_batch_len(before[key], capacity, 1);
    assert(after.remove(key) =~= before.remove(key));
}

/// Each request of a batch is timed by itself: it waited from its own arrival to the
/// dispatch, and all of them ran from there to the end.
pub proof fn law_batched_requests_are_timed(
    batch: Seq<PredictItem>,
    dispatched: u64,
    now: u64,
    i: int,
)
    requires
        0 <= i < batch.len(),
        batch[i].enqueued <= dispatched <= now,
    ensures
        samples_of(batch, dispatched, now).len() == batch.len(),
        batch[i].enqueued + samples_of(batch, dispatched, now)[i].queue_wait == dispatched,
        dispatched + samples_of(batch, dispatched, now)[i].latency == now,
        samples_of(batch, dispatched, now)[i].at == now,
{
}

/// A queued request gets what its accumulator replied, and an error where that ended
/// without a reply.
pub proof fn law_replies_reach_their_caller(
    r: Result<Prediction, PredictError>,
    reply: Option<Result<Prediction, PredictError>>,
)
    requires
        is_reply(r, reply),
    ensures
        reply matches Some(answer) ==> r == answer,
        reply is None ==> r is Err,
{
}

/// A batch runs with the acceleration of its first request.
pub proof fn law_first_request_accelerates(item: PredictItem, others: Seq<PredictItem>)
    ensures
        acceleration_of(seq![item] + others) == item.acceleration,
{
}

} // verus!
