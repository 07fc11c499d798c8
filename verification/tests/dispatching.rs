//! Dispatch: the accumulator's decisions and the locks that guard models.

use muna_server::inputs::{Inputs, NameSet};
use muna_server::prediction::{Acceleration, PredictError, Prediction};
use muna_server::serving::batch::BatchPlan;
use muna_server::serving::dispatch::worker::{
    answer_of, answers, batch_counts, batch_samples, invocation, BufferedWorker, PredictItem,
    WorkerStep, FLUSH_DEADLINE,
};
use muna_server::serving::dispatch::{Created, Dispatcher, Entry, Route};
use muna_server::value::Value;
use serde_json::Value as JsonValue;

const DEADLINE: u64 = FLUSH_DEADLINE as u64;

fn names(list: &[&str]) -> NameSet {
    let mut set = NameSet::new();
    for name in list {
        set.insert(name);
    }
    set
}

fn text_inputs(texts: &[&str]) -> Inputs {
    let mut inputs = Inputs::new();
    inputs.insert("texts", Value::List(texts.iter().map(|t| JsonValue::from(*t)).collect()));
    inputs
}

fn item(texts: &[&str], key: &str, enqueued: u64, ticket: u64) -> PredictItem {
    PredictItem {
        inputs: text_inputs(texts),
        acceleration: Acceleration::LocalGpu,
        item_count: texts.len(),
        batch_key: key.into(),
        enqueued,
        ticket,
        arrival: 0,
    }
}

fn worker(capacity: usize) -> BufferedWorker {
    BufferedWorker::new(names(&["texts"]), capacity)
}

/// The number of items that an invocation gets, as a predictor would count.
fn invoke(batch: &Vec<PredictItem>) -> usize {
    let (inputs, acceleration) = invocation(batch, &names(&["texts"]));
    assert!(matches!(acceleration, Acceleration::LocalGpu));
    match inputs.get("texts") {
        Some(Value::List(items)) => items.len(),
        _ => 0,
    }
}

/// The answers when the predictor echoes the merged list.
fn echo(batch: &Vec<PredictItem>) -> Vec<(u64, usize)> {
    let (inputs, _) = invocation(batch, &names(&["texts"]));
    let results = inputs.get("texts").map(|v| vec![v.clone()]);
    let prediction = Prediction {
        id: "pred_test".into(),
        tag: "@test/model".into(),
        created: "0".into(),
        results,
        latency: None,
        error: None,
        logs: None,
    };
    let replies = answers(Ok(prediction), &batch_counts(batch));
    assert_eq!(replies.len(), batch.len());
    let mut out = Vec::new();
    for (item, reply) in batch.iter().zip(replies) {
        let prediction = reply.unwrap();
        assert!(prediction.error.is_none());
        assert_eq!(prediction.id, "pred_test");
        match &prediction.results.unwrap()[0] {
            Value::List(items) => out.push((item.ticket, items.len())),
            other => panic!("expected list, got {other:?}"),
        }
    }
    out
}

fn flush(worker: &mut BufferedWorker, now: u64) -> Vec<PredictItem> {
    match worker.next(now) {
        WorkerStep::Flush(batch) => batch,
        other => panic!("expected a flush, got {other:?}"),
    }
}

fn check_buffered_merges_within_deadline() {
    let mut w = worker(8);
    w.file_item(item(&["a", "b"], "", 0, 1));
    w.file_item(item(&["c"], "", 0, 2));
    assert!(matches!(w.next(DEADLINE - 1), WorkerStep::WaitUntil(t) if t == FLUSH_DEADLINE));
    let batch = flush(&mut w, DEADLINE);
    // One merged invocation of 3 items, split back 2 + 1.
    assert_eq!(invoke(&batch), 3);
    assert_eq!(echo(&batch), vec![(1, 2), (2, 1)]);
    assert!(matches!(w.next(DEADLINE), WorkerStep::Wait));
}

fn check_buffered_flushes_at_capacity() {
    let mut w = worker(3);
    w.file_item(item(&["a", "b"], "", 0, 1));
    w.file_item(item(&["c"], "", 0, 2));
    // Capacity reached: the flush happens without waiting out the deadline.
    let batch = flush(&mut w, 0);
    assert_eq!(invoke(&batch), 3);
}

fn check_buffered_partial_batch_flushes_at_deadline() {
    let mut w = worker(8);
    w.file_item(item(&["a"], "", 5, 1));
    assert!(w.take_flushable(5 + DEADLINE - 1).is_none());
    let batch = flush(&mut w, 5 + DEADLINE);
    assert_eq!(invoke(&batch), 1);
}

fn check_buffered_mismatched_key_held_for_next_batch() {
    let mut w = worker(8);
    w.file_item(item(&["a"], "dims=10", 0, 1));
    w.file_item(item(&["b"], "dims=20", 0, 2));
    // Two invocations of one item each; the keys never merge.
    let first = flush(&mut w, DEADLINE);
    let second = flush(&mut w, DEADLINE);
    assert_eq!((invoke(&first), invoke(&second)), (1, 1));
    assert_eq!((first[0].ticket, second[0].ticket), (1, 2));
}

#[test]
fn dispatch_buffered_merges_within_deadline() {
    check_buffered_merges_within_deadline();
}

#[test]
fn dispatch_buffered_flushes_at_capacity() {
    check_buffered_flushes_at_capacity();
}

#[test]
fn dispatch_buffered_partial_batch_flushes_at_deadline() {
    check_buffered_partial_batch_flushes_at_deadline();
}

#[test]
fn dispatch_buffered_mismatched_key_held_for_next_batch() {
    check_buffered_mismatched_key_held_for_next_batch();
}

#[test]
fn worker_buffered_merges_within_deadline() {
    check_buffered_merges_within_deadline();
}

#[test]
fn worker_buffered_flushes_at_capacity() {
    check_buffered_flushes_at_capacity();
}

#[test]
fn worker_buffered_partial_batch_flushes_at_deadline() {
    check_buffered_partial_batch_flushes_at_deadline();
}

#[test]
fn worker_buffered_mismatched_key_held_for_next_batch() {
    check_buffered_mismatched_key_held_for_next_batch();
}

#[test]
fn buffered_interleaved_mismatch_does_not_split_batch() {
    let mut w = worker(8);
    // The mismatched key arrives BETWEEN two same-key requests: it must be
    // deferred to its own batch, not end the current accumulation.
    w.file_item(item(&["a"], "dims=10", 0, 1));
    w.file_item(item(&["c"], "dims=20", 0, 2));
    w.file_item(item(&["b"], "dims=10", 0, 3));
    let first = flush(&mut w, DEADLINE);
    let second = flush(&mut w, DEADLINE);
    assert_eq!((invoke(&first), invoke(&second)), (2, 1));
    assert_eq!(second[0].ticket, 2);
}

#[test]
fn full_batch_preempts_older_partial_batch() {
    let mut w = worker(2);
    // Key dims=10 arrives first but stays partial; dims=20 fills to capacity
    // and must flush FIRST, without waiting out dims=10's deadline.
    w.file_item(item(&["a"], "dims=10", 0, 1));
    w.file_item(item(&["b"], "dims=20", 0, 2));
    w.file_item(item(&["c"], "dims=20", 0, 3));
    let first = flush(&mut w, 1);
    assert_eq!(first.iter().map(|i| i.ticket).collect::<Vec<u64>>(), vec![2, 3]);
    assert!(matches!(w.next(1), WorkerStep::WaitUntil(_)));
    let second = flush(&mut w, DEADLINE);
    assert_eq!((invoke(&first), invoke(&second)), (2, 1));
}

#[test]
fn a_due_key_is_not_overtaken() {
    let mut w = worker(2);
    assert!(w.has_room());
    w.file_item(item(&["a"], "dims=10", 0, 1));
    // A later key fills up, but the first one is due already.
    w.file_item(item(&["b"], "dims=20", 5, 2));
    w.file_item(item(&["c"], "dims=20", 6, 3));
    let first = flush(&mut w, DEADLINE);
    assert_eq!(first.iter().map(|i| i.ticket).collect::<Vec<u64>>(), vec![1]);
    let second = flush(&mut w, DEADLINE);
    assert_eq!(second.iter().map(|i| i.ticket).collect::<Vec<u64>>(), vec![2, 3]);
}

#[test]
fn deferred_key_deadline_anchored_at_arrival() {
    let mut w = worker(8);
    w.file_item(item(&["a"], "dims=10", 0, 1));
    w.file_item(item(&["b"], "dims=20", 10, 2));
    let first = flush(&mut w, DEADLINE);
    // b's deadline is anchored at ITS arrival, not restarted after a's batch.
    assert_eq!(w.earliest_deadline(), Some(10 + FLUSH_DEADLINE));
    let second = flush(&mut w, 10 + DEADLINE);
    assert_eq!((invoke(&first), invoke(&second)), (1, 1));
}

#[test]
fn oversized_request_runs_alone() {
    let mut w = worker(2);
    w.file_item(item(&["a", "b", "c", "d", "e"], "", 0, 1));
    w.file_item(item(&["f"], "", 0, 2));
    // Item count exceeds capacity: the request is immediately eligible and
    // runs alone (a single request can never be split).
    let batch = flush(&mut w, 0);
    assert_eq!(invoke(&batch), 5);
    assert_eq!(echo(&batch), vec![(1, 5)]);
    assert!(w.take_flushable(0).is_none());
}

#[test]
fn a_batch_never_exceeds_capacity() {
    let mut w = worker(4);
    w.file_item(item(&["a", "b"], "", 0, 1));
    w.file_item(item(&["c", "d", "e"], "", 0, 2));
    w.file_item(item(&["f"], "", 0, 3));
    // The second request does not fit beside the first.
    let first = flush(&mut w, 0);
    assert_eq!(first.iter().map(|i| i.ticket).collect::<Vec<u64>>(), vec![1]);
    let second = flush(&mut w, 0);
    assert_eq!(second.iter().map(|i| i.ticket).collect::<Vec<u64>>(), vec![2, 3]);
}

#[test]
fn waits_are_measured_from_arrival() {
    let batch = vec![item(&["a"], "", 3, 1), item(&["b"], "", 9, 2)];
    let samples = batch_samples(&batch, 10, 15);
    assert_eq!(samples.iter().map(|s| s.queue_wait).collect::<Vec<u128>>(), vec![7, 1]);
    assert!(samples.iter().all(|s| s.latency == 5 && s.at == 15));
    assert_eq!(batch_counts(&batch), vec![1, 1]);
}

#[test]
fn a_failed_invocation_fails_every_request() {
    let replies = answers(Err(PredictError::Prediction("boom".into())), &vec![1, 1, 2]);
    assert_eq!(replies.len(), 3);
    for reply in replies {
        match reply {
            Err(PredictError::Native(message)) => assert!(message.contains("boom")),
            other => panic!("expected a native error, got {other:?}"),
        }
    }
}

fn buffered_plan() -> BatchPlan {
    BatchPlan::Buffered { params: names(&["prompt"]), capacity: 4 }
}

/// Surfaces that bypass the accumulator get the model's lock too.
#[test]
fn acquire_guards_buffered_models() {
    let mut dispatcher = Dispatcher::new();
    let plan = buffered_plan();
    let (created, first) = dispatcher.acquire("@test/buffered", &plan);
    assert!(matches!(created, Created::Worker(_, _)));
    assert!(first.is_some(), "buffered plan must yield a lock");
    // A second caller waits on the same lock.
    let (created, second) = dispatcher.acquire("@test/buffered", &plan);
    assert!(matches!(created, Created::Nothing));
    assert_eq!(first, second);
}

#[test]
fn acquire_guards_sequential_models() {
    let mut dispatcher = Dispatcher::new();
    let (created, lock) = dispatcher.acquire("@test/sequential", &BatchPlan::Sequential);
    assert!(matches!(created, Created::Lock(l) if Some(l) == lock));
    assert!(lock.is_some());
}

/// Continuous predictors own their synchronization; no lock.
#[test]
fn acquire_skips_continuous_models() {
    let mut dispatcher = Dispatcher::new();
    assert!(dispatcher.acquire("@test/continuous", &BatchPlan::Continuous).1.is_none());
}

/// The accumulator and `acquire` callers share ONE lock per model.
#[test]
fn buffered_accumulator_shares_the_acquire_lock() {
    let mut dispatcher = Dispatcher::new();
    let plan = buffered_plan();
    let tag = "@test/buffered";
    let held = match dispatcher.ensure_entry(tag, &plan) {
        Created::Worker(lock, _) => lock,
        other => panic!("expected a worker, got {other:?}"),
    };
    assert_eq!(dispatcher.entry(tag), Some(Entry::Buffered { lock: held }));
    assert_eq!(dispatcher.acquire(tag, &plan).1, Some(held));
}

#[test]
fn a_dropped_reply_is_an_error() {
    match answer_of(None) {
        Err(PredictError::Native(m)) => assert_eq!(m, "prediction task dropped"),
        other => panic!("expected a native error, got {other:?}"),
    }
    let answer = answer_of(Some(Err(PredictError::Http("boom".into()))));
    assert!(matches!(answer, Err(PredictError::Http(m)) if m == "boom"));
}

#[test]
fn models_do_not_share_locks() {
    let mut dispatcher = Dispatcher::new();
    let a = dispatcher.acquire("@test/a", &BatchPlan::Sequential).1;
    let b = dispatcher.acquire("@test/b", &buffered_plan()).1;
    assert_ne!(a, b);
    assert_eq!(dispatcher.remove("@test/a"), Some(Entry::Sequential { lock: a.unwrap() }));
    assert_eq!(dispatcher.remove("@test/a"), None);
    // A model that comes back gets a lock of its own.
    assert_ne!(dispatcher.acquire("@test/a", &BatchPlan::Sequential).1, a);
}

#[test]
fn sequential_dispatch_serializes_requests() {
    let mut dispatcher = Dispatcher::new();
    let plan = BatchPlan::Sequential;
    let mut locks = Vec::new();
    for ticket in 0..2 {
        let (_, route) = dispatcher.create(
            "@test/s",
            &plan,
            text_inputs(&["a"]),
            Acceleration::LocalGpu,
            0,
            ticket,
        );
        match route {
            Route::Locked(lock, _, _) => locks.push(lock),
            other => panic!("expected a locked route, got {other:?}"),
        }
    }
    assert_eq!(locks[0], locks[1]);
}

#[test]
fn continuous_dispatch_overlaps() {
    let mut dispatcher = Dispatcher::new();
    let (_, route) = dispatcher.create(
        "@test/c",
        &BatchPlan::Continuous,
        text_inputs(&["a"]),
        Acceleration::LocalGpu,
        0,
        0,
    );
    assert!(matches!(route, Route::Direct(_, _)));
}

#[test]
fn buffered_dispatch_queues_items() {
    let mut dispatcher = Dispatcher::new();
    let plan = BatchPlan::Buffered { params: names(&["texts"]), capacity: 4 };
    let mut inputs = text_inputs(&["a", "b"]);
    inputs.insert("dims", Value::Int(10));
    let (_, route) =
        dispatcher.create("@test/b", &plan, inputs, Acceleration::LocalCpu, 77, 5);
    match route {
        Route::Queued(_, item) => {
            assert_eq!(item.item_count, 2);
            assert!(item.batch_key.starts_with("dims="));
            assert_eq!((item.enqueued, item.ticket), (77, 5));
            assert!(matches!(item.acceleration, Acceleration::LocalCpu));
        }
        other => panic!("expected a queued route, got {other:?}"),
    }
}
