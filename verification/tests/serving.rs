//! Model lifecycles, the disk tier, download priority, loads and requests.

use muna_server::config::{eager_loads, node_context, pinned_models};
use muna_server::handlers::request::{advance, begin, time_out, RequestStep};
use muna_server::inputs::NameSet;
use muna_server::prediction::PredictError;
use muna_server::serving::batch::{BatchConfig, BatchMode, BatchPlan, Parameter, Signature};
use muna_server::serving::cache::{may_download, CachePriority, CacheState, CacheTracker};
use muna_server::serving::download_gate::DownloadGate;
use muna_server::serving::loader::{download_outcome, warm_inputs, LoadStep, ModelLoad};
use muna_server::serving::registry::{
    memory_growth, LoadEnd, Loaded, ModelRegistry, ReadyPoll, RegistryError, StatsEvent, Unload,
};
use muna_server::serving::stats::{PredictionSample, SampleDetail};
use muna_server::state::AppState;
use muna_server::value::Value;

const SECOND: u64 = 1_000_000_000;

fn loaded(handle: u64) -> Loaded {
    Loaded {
        signature: Signature { inputs: vec![], outputs: vec![] },
        handle,
        download: 3_000,
        load: 5_000,
    }
}

fn pinned(tags: &[&str]) -> Option<NameSet> {
    let mut set = NameSet::new();
    for tag in tags {
        set.insert(tag);
    }
    Some(set)
}

/// Loads a model to the end.
fn make_ready(registry: &mut ModelRegistry, tag: &str, handle: u64, now: u64) {
    let deadline = ModelRegistry::hold_deadline(now);
    assert!(matches!(
        registry.poll_ready(tag, now, deadline),
        ReadyPoll::Wait { start_load: true }
    ));
    let end = registry.complete_load(tag, Ok(loaded(handle)), now, now, (None, None));
    assert_eq!(end, LoadEnd::Published);
}

#[test]
fn single_flight_one_warmup_for_concurrent_requests() {
    let mut registry = ModelRegistry::new(None);
    let deadline = ModelRegistry::hold_deadline(0);
    let mut loads = 0;
    for _ in 0..8 {
        match registry.poll_ready("@test/model", 0, deadline) {
            ReadyPoll::Wait { start_load } => {
                if start_load {
                    loads += 1;
                }
            }
            other => panic!("expected to wait, got {other:?}"),
        }
    }
    registry.complete_load("@test/model", Ok(loaded(7)), 0, 100, (None, None));
    for _ in 0..8 {
        match registry.poll_ready("@test/model", 100, deadline) {
            ReadyPoll::Ready(held) => {
                assert_eq!(held.handle, 7);
                assert_eq!(held.plan, BatchPlan::Sequential);
            }
            other => panic!("expected to be ready, got {other:?}"),
        }
    }
    assert_eq!(loads, 1);
}

#[test]
fn failed_load_returned_once_then_retried() {
    let mut registry = ModelRegistry::new(None);
    let deadline = ModelRegistry::hold_deadline(0);
    for _ in 0..2 {
        assert!(matches!(
            registry.poll_ready("@test/model", 0, deadline),
            ReadyPoll::Wait { start_load: true }
        ));
        registry.complete_load("@test/model", Err("boom".into()), 0, 10, (None, None));
        // The failure is cleared; a second request retries the load.
        match registry.poll_ready("@test/model", 10, deadline) {
            ReadyPoll::Refused(RegistryError::Failed(e)) => assert_eq!(e, "boom"),
            other => panic!("expected a failure, got {other:?}"),
        }
    }
}

#[test]
fn warm_is_idempotent_while_loading() {
    let mut registry = ModelRegistry::new(None);
    assert!(registry.warm("@test/model", 0));
    assert!(!registry.warm("@test/model", 1));
    assert!(!registry.warm("@test/model", 2));
    registry.complete_load("@test/model", Ok(loaded(1)), 0, 3, (None, None));
    assert!(!registry.warm("@test/model", 4));
    assert!(registry.ready("@test/model").is_some());
}

#[test]
fn unload_during_load_discards_model() {
    let mut registry = ModelRegistry::new(None);
    registry.warm("@test/model", 0);
    // Unload while the load is in flight: the delete is deferred to the end
    // of the load, and the model must not surface as ready afterwards.
    assert_eq!(registry.unload("@test/model"), Unload::Deferred);
    assert_eq!(
        registry.complete_load("@test/model", Ok(loaded(4)), 0, 5, (None, None)),
        LoadEnd::Unloaded(Some(4))
    );
    assert!(registry.ready_tags().is_empty());
    assert_eq!(registry.slots().len(), 0);
}

#[test]
fn pinned_set_rejects_unlisted_tag() {
    let mut registry = ModelRegistry::new(pinned(&["@test/served"]));
    let deadline = ModelRegistry::hold_deadline(0);
    match registry.poll_ready("@test/other", 0, deadline) {
        ReadyPoll::Refused(RegistryError::NotServed(tag)) => assert_eq!(tag, "@test/other"),
        other => panic!("expected not served, got {other:?}"),
    }
    // A warm directive for an unlisted tag is ignored, not loaded.
    assert!(!registry.warm("@test/other", 0));
    assert_eq!(registry.slots().len(), 0);
    // The pinned member loads normally.
    make_ready(&mut registry, "@test/served", 1, 0);
    assert!(registry.serves("@test/served"));
}

#[test]
fn ready_tags_reports_only_ready() {
    let mut registry = ModelRegistry::new(None);
    assert!(registry.ready_tags().is_empty());
    make_ready(&mut registry, "@test/model", 1, 0);
    registry.warm("@test/loading", 0);
    assert_eq!(registry.ready_tags(), vec!["@test/model".to_string()]);
}

#[test]
fn loading_is_refused_once_the_deadline_passes() {
    let mut registry = ModelRegistry::new(None);
    registry.warm("@test/model", 0);
    let deadline = ModelRegistry::hold_deadline(0);
    assert_eq!(deadline, 10_000_000_000);
    assert!(matches!(
        registry.poll_ready("@test/model", 9 * SECOND, deadline),
        ReadyPoll::Wait { start_load: false }
    ));
    // Ten of the expected thirty seconds are over.
    match registry.poll_ready("@test/model", 10 * SECOND, deadline) {
        ReadyPoll::Refused(RegistryError::Loading { retry_after }) => assert_eq!(retry_after, 20),
        other => panic!("expected loading, got {other:?}"),
    }
    match registry.timed_out("@test/model", 29 * SECOND) {
        Some(RegistryError::Loading { retry_after }) => assert_eq!(retry_after, 5),
        other => panic!("expected loading, got {other:?}"),
    }
    registry.complete_load("@test/model", Ok(loaded(1)), 0, 12 * SECOND, (None, None));
    assert!(registry.timed_out("@test/model", 13 * SECOND).is_none());
    // The next estimate is the last load's duration.
    assert_eq!(registry.retry_after(0, 2 * SECOND), 10);
}

#[test]
fn reconciliation_lets_failures_cool_down() {
    let mut registry = ModelRegistry::new(None);
    assert!(registry.warm_reconcile("@test/model", 0));
    registry.complete_load("@test/model", Err("boom".into()), 0, SECOND, (None, None));
    assert!(!registry.warm_reconcile("@test/model", 60 * SECOND));
    assert!(registry.warm_reconcile("@test/model", 61 * SECOND));
    // A plain warm directive does not wait.
    registry.complete_load("@test/model", Err("boom".into()), 0, 62 * SECOND, (None, None));
    assert!(registry.warm("@test/model", 62 * SECOND));
}

#[test]
fn unload_says_what_to_delete() {
    let mut registry = ModelRegistry::new(None);
    assert_eq!(registry.unload("@test/model"), Unload::Nothing);
    make_ready(&mut registry, "@test/model", 9, 0);
    assert_eq!(registry.unload("@test/model"), Unload::Delete(9));
    assert_eq!(registry.unload("@test/model"), Unload::Nothing);
    registry.warm("@test/model", 0);
    registry.complete_load("@test/model", Err("boom".into()), 0, 1, (None, None));
    assert_eq!(registry.unload("@test/model"), Unload::Dropped);
    assert_eq!(
        registry.complete_load("@test/model", Ok(loaded(1)), 0, 1, (None, None)),
        LoadEnd::Untracked
    );
}

#[test]
fn a_load_is_measured() {
    let mut registry = ModelRegistry::new(None);
    registry.warm("@test/model", 0);
    let signature = Signature {
        inputs: vec![Parameter {
            name: "messages".into(),
            dtype: None,
            batch: Some(BatchConfig { mode: BatchMode::Continuous, capacity: None }),
        }],
        outputs: vec![],
    };
    let outcome = Loaded { signature, handle: 3, download: 2_000_000, load: 7_500_000 };
    registry.complete_load("@test/model", Ok(outcome), 0, 77, (Some(100), Some(164)));
    let model = registry.ready("@test/model").unwrap();
    assert_eq!(model.plan, BatchPlan::Continuous);
    assert_eq!(model.loaded_at, 77);
    assert_eq!(model.stats.load_time_us, 7_500);
    assert_eq!(model.stats.download_time_ns, 2_000_000);
    assert_eq!(model.stats.vram_mb(), Some(64));
    assert_eq!(memory_growth(Some(5), Some(5)), None);
    assert_eq!(memory_growth(None, Some(5)), None);
}

#[test]
fn events_of_replaced_models_are_dropped() {
    let mut registry = ModelRegistry::new(None);
    make_ready(&mut registry, "@test/model", 1, 0);
    registry.count("@test/model", 1, StatsEvent::Enqueued);
    registry.count("@test/model", 1, StatsEvent::Enqueued);
    registry.count("@test/model", 1, StatsEvent::Dequeued);
    registry.count("@test/model", 1, StatsEvent::Latency(4_000));
    registry.count("@test/model", 2, StatsEvent::Latency(4_000));
    registry.count(
        "@test/model",
        1,
        StatsEvent::Sample(PredictionSample {
            at: 0,
            queue_wait: 1,
            latency: 2,
            detail: SampleDetail::Unary,
        }),
    );
    let stats = &registry.ready("@test/model").unwrap().stats;
    assert_eq!(stats.queue_depth, 1);
    assert_eq!(stats.total_predictions, 1);
    assert_eq!(stats.latency_total(), Some((4, 1)));
    assert_eq!(stats.telemetry.len(), 1);
}

#[test]
fn a_closed_queue_leaves_the_depth() {
    let mut registry = ModelRegistry::new(None);
    make_ready(&mut registry, "@test/model", 1, 0);
    registry.count("@test/model", 1, StatsEvent::Enqueued);
    assert!(registry.finish_enqueue("@test/model", 1, true).is_ok());
    assert_eq!(registry.ready("@test/model").unwrap().stats.queue_depth, 1);
    registry.count("@test/model", 1, StatsEvent::Enqueued);
    match registry.finish_enqueue("@test/model", 1, false) {
        Err(PredictError::Native(m)) => assert_eq!(m, "model dispatch queue closed"),
        other => panic!("expected a native error, got {other:?}"),
    }
    assert_eq!(registry.ready("@test/model").unwrap().stats.queue_depth, 1);
    // The request fails as well where its model is gone.
    assert!(registry.finish_enqueue("@test/other", 1, false).is_err());
}

#[test]
fn prefetch_waits_for_priority_downloads() {
    let mut gate = DownloadGate::new();
    let mut tracker = CacheTracker::new();
    gate.enter_priority();
    assert!(tracker.ensure_cached("@a/prefetch", 0));
    // Queued: reported as caching, download not started.
    assert!(!may_download(CachePriority::Prefetch, &gate));
    assert!(matches!(tracker.state("@a/prefetch"), Some(CacheState::Caching)));
    gate.leave_priority();
    assert!(may_download(CachePriority::Prefetch, &gate));
    tracker.finish_download("@a/prefetch", Ok(()), 1);
    assert!(matches!(tracker.state("@a/prefetch"), Some(CacheState::Cached)));
}

#[test]
fn immediate_requests_bypass_the_gate() {
    let mut gate = DownloadGate::new();
    let mut tracker = CacheTracker::new();
    gate.enter_priority();
    assert!(tracker.ensure_cached("@a/process", 0));
    assert!(may_download(CachePriority::Immediate, &gate));
}

#[test]
fn ensure_cached_is_single_flight() {
    let mut tracker = CacheTracker::new();
    assert!(tracker.ensure_cached("@a/x", 0));
    assert!(!tracker.ensure_cached("@a/x", 0));
    assert!(!tracker.ensure_cached("@a/x", 1));
    tracker.finish_download("@a/x", Ok(()), 2);
    assert!(!tracker.ensure_cached("@a/x", 3));
}

#[test]
fn failed_downloads_back_off() {
    let mut tracker = CacheTracker::new();
    assert!(tracker.ensure_cached("@a/x", 0));
    tracker.finish_download("@a/x", Err("no route".into()), SECOND);
    assert!(!tracker.ensure_cached("@a/x", 60 * SECOND));
    assert!(tracker.ensure_cached("@a/x", 61 * SECOND));
    tracker.finish_download("@a/x", Err("no route".into()), 62 * SECOND);
    assert!(tracker.forget_failed("@a/x"));
    assert!(!tracker.forget_failed("@a/x"));
    assert!(tracker.state("@a/x").is_none());
    tracker.ensure_cached("@a/y", 0);
    tracker.finish_download("@a/y", Ok(()), 0);
    assert!(!tracker.forget_failed("@a/y"));
    let snapshot = tracker.snapshot();
    assert_eq!(snapshot.len(), 1);
    assert_eq!(snapshot[0].0, "@a/y");
}

#[test]
fn idle_gate_resolves_immediately() {
    let gate = DownloadGate::new();
    assert_eq!(gate.inflight(), 0);
    assert!(gate.is_idle());
}

#[test]
fn guard_blocks_until_dropped() {
    let mut gate = DownloadGate::new();
    gate.enter_priority();
    assert_eq!(gate.inflight(), 1);
    assert!(!gate.is_idle());
    gate.leave_priority();
    assert_eq!(gate.inflight(), 0);
    assert!(gate.is_idle());
}

#[test]
fn every_guard_must_drop() {
    let mut gate = DownloadGate::new();
    gate.enter_priority();
    gate.enter_priority();
    assert_eq!(gate.inflight(), 2);
    gate.leave_priority();
    assert_eq!(gate.inflight(), 1);
    assert!(!gate.is_idle());
    gate.leave_priority();
    assert!(gate.is_idle());
    // Leaving an idle gate leaves it idle.
    gate.leave_priority();
    assert_eq!(gate.inflight(), 0);
}

#[test]
fn a_load_downloads_warms_and_retrieves() {
    let mut load = ModelLoad::new(5);
    assert_eq!(load.step(), LoadStep::Download);
    assert_eq!(load.downloaded(Ok(None), 100), Ok(()));
    assert_eq!(load.step(), LoadStep::Warm);
    // The warmup's own error is expected: required inputs are missing.
    assert_eq!(load.warmed(Ok(Some("missing input".into())), 200), Ok(()));
    assert_eq!(load.step(), LoadStep::Retrieve);
    let signature = Signature { inputs: vec![], outputs: vec![] };
    let done = load.retrieved("@test/model", Ok(Some(signature))).unwrap();
    assert_eq!((done.handle, done.download, done.load), (5, 100, 200));
    match load.retrieved("@test/model", Ok(None)) {
        Err(e) => assert_eq!(e, "predictor @test/model not found"),
        Ok(_) => panic!("expected an error"),
    }
    match load.retrieved("@test/model", Err("offline".into())) {
        Err(e) => assert_eq!(e, "offline"),
        Ok(_) => panic!("expected an error"),
    }
}

#[test]
fn a_load_stops_where_a_step_fails() {
    let mut load = ModelLoad::new(1);
    assert_eq!(load.downloaded(Ok(Some("disk full".into())), 1), Err("disk full".to_string()));
    assert_eq!(load.step(), LoadStep::Download);
    assert_eq!(load.downloaded(Err("offline".into()), 1), Err("offline".to_string()));
    assert_eq!(load.downloaded(Ok(None), 1), Ok(()));
    assert_eq!(load.warmed(Err("crash".into()), 1), Err("crash".to_string()));
    assert_eq!(load.step(), LoadStep::Warm);
    assert_eq!(download_outcome(Ok(Some("e".into()))), Err("e".to_string()));
    let inputs = warm_inputs();
    assert_eq!(inputs.len(), 1);
    assert!(matches!(inputs.get("_"), Some(Value::Null)));
}

#[test]
fn requests_follow_their_model() {
    let mut state = AppState::new(pinned(&["@test/model"]));
    let deadline = begin(&state, 0).unwrap();
    match advance(&mut state, "@test/other", 0, deadline) {
        RequestStep::Answer(e) => {
            assert_eq!(e.status, 404);
            assert_eq!(e.code.as_deref(), Some("model_not_found"));
        }
        other => panic!("expected an answer, got {other:?}"),
    }
    assert!(matches!(
        advance(&mut state, "@test/model", 0, deadline),
        RequestStep::Wait { start_load: true }
    ));
    assert_eq!(state.gate.inflight(), 1);
    assert!(matches!(
        advance(&mut state, "@test/model", 1, deadline),
        RequestStep::Wait { start_load: false }
    ));
    assert_eq!(state.gate.inflight(), 1);
    let late = time_out(&state, "@test/model", 10 * SECOND).unwrap();
    assert_eq!((late.status, late.retry_after), (429, Some(20)));
    state.registry.complete_load("@test/model", Ok(loaded(2)), 0, 5, (None, None));
    assert!(time_out(&state, "@test/model", 10 * SECOND).is_none());
    match advance(&mut state, "@test/model", 6, deadline) {
        RequestStep::Predict(held) => assert_eq!(held.handle, 2),
        other => panic!("expected a prediction, got {other:?}"),
    }
}

#[test]
fn loading_window_returns_429_with_retry_after() {
    let mut state = AppState::new(None);
    let deadline = begin(&state, 0).unwrap();
    advance(&mut state, "@test/slow", 0, deadline);
    match advance(&mut state, "@test/slow", 11 * SECOND, deadline) {
        RequestStep::Answer(e) => {
            assert_eq!(e.status, 429);
            assert_eq!(e.kind, "rate_limit_error");
            assert!(e.retry_after.unwrap() >= 5);
        }
        other => panic!("expected an answer, got {other:?}"),
    }
}

#[test]
fn failed_loads_answer_500() {
    let mut state = AppState::new(None);
    let deadline = begin(&state, 0).unwrap();
    advance(&mut state, "@test/bad", 0, deadline);
    state.registry.complete_load("@test/bad", Err("boom".into()), 0, 1, (None, None));
    match advance(&mut state, "@test/bad", 2, deadline) {
        RequestStep::Answer(e) => {
            assert_eq!(e.status, 500);
            assert_eq!(e.message, "model failed to load: boom");
        }
        other => panic!("expected an answer, got {other:?}"),
    }
}

#[test]
fn draining_nodes_refuse_requests() {
    let mut state = AppState::new(None);
    assert!(begin(&state, 0).is_ok());
    state.draining = true;
    let e = begin(&state, 0).unwrap_err();
    assert_eq!((e.status, e.retry_after), (503, Some(30)));
    assert_eq!(e.message, "node is draining");
}

#[test]
fn pinned_models_eager_load_and_reject_unlisted() {
    let models = vec!["@a/x".to_string(), "@a/y".to_string(), "@a/x".to_string()];
    let mut state = AppState::new(pinned_models(&models));
    let started = eager_loads(&mut state, &models, 0);
    assert_eq!(started, vec!["@a/x".to_string(), "@a/y".to_string()]);
    assert_eq!(state.gate.inflight(), 2);
    assert_eq!(state.registry.slots().len(), 2);
    assert!(!state.registry.serves("@a/z"));
    assert!(pinned_models(&vec![]).is_none());
}

#[test]
fn a_control_plane_needs_a_node_identity() {
    let node = node_context(Some("http://plane".into()), Some("node-1".into()), 0, 7)
        .unwrap()
        .unwrap();
    assert_eq!(node.node_id, "node-1");
    assert_eq!(node.control_plane_url, "http://plane");
    assert_eq!((node.heartbeat_interval, node.kv_flush_interval), (1, 7));
    assert_eq!(
        node_context(Some("http://plane".into()), None, 5, 1).unwrap_err(),
        "--control-plane-url requires --node-id"
    );
    assert!(node_context(None, Some("node-1".into()), 5, 1).unwrap().is_none());
}

#[test]
fn check_ins_are_scheduled() {
    let mut state = AppState::new(None);
    assert!(!state.check_in_due("@a/x", u64::MAX));
    state.checkins.mark_model_loaded("@a/x", 1_000);
    state.checkins.mark_model_loaded("@a/x", 2_000);
    assert!(!state.checkins.is_due("@a/x", 1_000 + 43_199));
    assert!(state.checkins.is_due("@a/x", 1_000 + 43_200));
    // A model that is no longer loaded has nothing to check in for.
    assert!(!state.check_in_due("@a/x", u64::MAX));
    make_ready(&mut state.registry, "@a/x", 1, 0);
    assert!(state.check_in_due("@a/x", 1_000 + 43_200));
    state.checkins.checked_in("@a/x", 50_000, false);
    assert!(!state.check_in_due("@a/x", 50_000 + 3_599));
    assert!(state.check_in_due("@a/x", 50_000 + 3_600));
    state.checkins.checked_in("@a/x", 60_000, true);
    assert!(!state.check_in_due("@a/x", 60_000 + 3_600));
    state.checkins.checked_in("@a/x", u64::MAX - 1, true);
    assert!(state.check_in_due("@a/x", u64::MAX));
}
