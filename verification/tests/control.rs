//! Node status and goals of the control plane.

use muna_server::control::heartbeat::{apply, process_first, Effect};
use muna_server::control::protocol::{
    collect_model_status, heartbeat_url, ingest_url, DispatchMode, HeartbeatResponse,
    ModelDescriptor, ModelLifecycle, Residency,
};
use muna_server::inputs::NameSet;
use muna_server::serving::batch::{BatchPlan, Signature};
use muna_server::serving::cache::{CachePriority, CacheState};
use muna_server::serving::dispatch::Entry;
use muna_server::serving::registry::{Loaded, StatsEvent};
use muna_server::state::AppState;

const SECOND: u64 = 1_000_000_000;

fn descriptor(tag: &str, residency: Residency) -> ModelDescriptor {
    ModelDescriptor { tag: tag.to_string(), residency, key: None }
}

fn keyed(tag: &str, residency: Residency, key: &str) -> ModelDescriptor {
    ModelDescriptor { tag: tag.to_string(), residency, key: Some(key.to_string()) }
}

fn reply(models: Vec<ModelDescriptor>) -> HeartbeatResponse {
    HeartbeatResponse { models, drain: None }
}

fn make_ready(state: &mut AppState, tag: &str, handle: u64) {
    state.registry.warm(tag, 0);
    let outcome = Loaded {
        signature: Signature { inputs: vec![], outputs: vec![] },
        handle,
        download: 0,
        load: 2_000,
    };
    state.registry.complete_load(tag, Ok(outcome), 0, 0, (None, Some(1)));
}

fn describe(effects: &[Effect]) -> Vec<String> {
    effects
        .iter()
        .map(|e| match e {
            Effect::StartLoad(tag) => format!("load {tag}"),
            Effect::StartDownload(tag, CachePriority::Immediate) => format!("download {tag}"),
            Effect::StartDownload(tag, CachePriority::Prefetch) => format!("prefetch {tag}"),
            Effect::RetireDispatch(tag, _) => format!("retire {tag}"),
            Effect::DeletePredictor(tag, handle) => format!("delete {tag} {handle}"),
        })
        .collect()
}

#[test]
fn process_directives_are_applied_first() {
    // The plane listed a disk-tier prefetch ahead of the process-tier load;
    // the load must still be applied first so its gate guard exists before
    // the prefetch is spawned.
    let models = vec![
        descriptor("@a/flux", Residency::Disk),
        descriptor("@a/gemma", Residency::Process),
        descriptor("@a/old", Residency::Unloaded),
        descriptor("@a/qwen", Residency::Process),
    ];
    let tags: Vec<&str> = process_first(&models).into_iter().map(|d| d.tag.as_str()).collect();
    assert_eq!(tags, vec!["@a/gemma", "@a/qwen", "@a/flux", "@a/old"]);
}

#[test]
fn goals_start_loads_before_prefetches() {
    let mut state = AppState::new(None);
    let response = reply(vec![
        descriptor("@a/flux", Residency::Disk),
        descriptor("@a/gemma", Residency::Process),
    ]);
    let applied = apply(&mut state, &response, 0);
    assert!(applied.changed);
    assert_eq!(
        describe(&applied.effects),
        vec!["load @a/gemma", "download @a/gemma", "prefetch @a/flux"]
    );
    assert_eq!(state.gate.inflight(), 1);
    assert!(matches!(state.cache.state("@a/flux"), Some(CacheState::Caching)));
    // The same goals again are free.
    let again = apply(&mut state, &response, SECOND);
    assert!(again.effects.is_empty());
    assert!(!again.changed);
    assert_eq!(state.gate.inflight(), 1);
}

#[test]
fn demotion_retires_and_deletes() {
    let mut state = AppState::new(None);
    make_ready(&mut state, "@a/x", 9);
    let lock = state.dispatcher.acquire("@a/x", &BatchPlan::Sequential).1.unwrap();
    let applied = apply(&mut state, &reply(vec![descriptor("@a/x", Residency::Disk)]), 0);
    assert_eq!(
        describe(&applied.effects),
        vec!["retire @a/x", "delete @a/x 9", "prefetch @a/x"]
    );
    assert!(matches!(
        &applied.effects[0],
        Effect::RetireDispatch(_, Entry::Sequential { lock: l }) if *l == lock
    ));
    assert!(state.registry.ready("@a/x").is_none());
    assert_eq!(state.dispatcher.entry("@a/x"), None);
}

#[test]
fn failed_load_reported_then_cleared_by_unload() {
    let mut state = AppState::new(None);
    state.registry.warm("@a/bad", 0);
    state.registry.complete_load("@a/bad", Err("boom".into()), 0, 0, (None, None));
    let statuses = collect_model_status(&state.registry, &state.cache);
    assert_eq!(statuses.len(), 1);
    assert_eq!(statuses[0].state, ModelLifecycle::Failed);
    assert_eq!(statuses[0].error.as_deref(), Some("boom"));
    let applied = apply(&mut state, &reply(vec![descriptor("@a/bad", Residency::Unloaded)]), 1);
    assert!(applied.changed);
    assert!(applied.effects.is_empty());
    assert!(collect_model_status(&state.registry, &state.cache).is_empty());
}

#[test]
fn unloading_keeps_resources_and_forgets_failures() {
    let mut state = AppState::new(None);
    state.cache.ensure_cached("@a/kept", 0);
    state.cache.finish_download("@a/kept", Ok(()), 0);
    state.cache.ensure_cached("@a/failed", 0);
    state.cache.finish_download("@a/failed", Err("no route".into()), 0);
    let response = reply(vec![
        descriptor("@a/kept", Residency::Unloaded),
        descriptor("@a/failed", Residency::Unloaded),
    ]);
    assert!(apply(&mut state, &response, 0).changed);
    assert!(matches!(state.cache.state("@a/kept"), Some(CacheState::Cached)));
    assert!(state.cache.state("@a/failed").is_none());
}

#[test]
fn an_empty_reply_changes_nothing() {
    let mut state = AppState::new(None);
    make_ready(&mut state, "@a/x", 1);
    let applied = apply(&mut state, &reply(vec![]), 0);
    assert!(applied.effects.is_empty() && !applied.changed);
    assert!(state.registry.ready("@a/x").is_some());
}

#[test]
fn credentials_are_stored_and_the_last_wins() {
    let mut state = AppState::new(None);
    let response = reply(vec![
        keyed("@a/x", Residency::Process, "first"),
        keyed("@a/x", Residency::Process, "second"),
        descriptor("@a/x", Residency::Process),
    ]);
    apply(&mut state, &response, 0);
    assert_eq!(state.keys.get("@a/x").map(String::as_str), Some("second"));
    assert!(state.keys.get("@a/y").is_none());
}

#[test]
fn goals_outside_the_pinned_set_are_ignored() {
    let mut pinned = NameSet::new();
    pinned.insert("@a/x");
    let mut state = AppState::new(Some(pinned));
    let response = reply(vec![
        descriptor("@a/other", Residency::Process),
        descriptor("@a/another", Residency::Disk),
    ]);
    let applied = apply(&mut state, &response, 0);
    assert!(applied.effects.is_empty() && !applied.changed);
    assert_eq!(state.registry.slots().len(), 0);
    assert!(state.cache.snapshot().is_empty());
}

#[test]
fn drain_directive_and_endpoint() {
    let mut state = AppState::new(None);
    let drain = |on: bool| HeartbeatResponse { models: vec![], drain: Some(on) };
    assert!(apply(&mut state, &drain(true), 0).changed);
    assert!(state.draining);
    assert!(!apply(&mut state, &drain(true), 0).changed);
    assert!(apply(&mut state, &drain(false), 0).changed);
    assert!(!state.draining);
}

#[test]
fn an_empty_reply_does_not_end_a_drain() {
    let mut state = AppState::new(None);
    state.draining = true;
    let applied = apply(&mut state, &HeartbeatResponse::default(), 0);
    assert!(applied.effects.is_empty() && !applied.changed);
    assert!(state.draining);
    // One with goals that does not mention draining does.
    let goals = reply(vec![descriptor("@a/x", Residency::Unloaded)]);
    assert!(apply(&mut state, &goals, 0).changed);
    assert!(!state.draining);
}

#[test]
fn statuses_merge_engines_and_disk() {
    let mut state = AppState::new(None);
    make_ready(&mut state, "@a/ready", 1);
    state.registry.count("@a/ready", 1, StatsEvent::Latency(8_000));
    state.registry.count("@a/ready", 1, StatsEvent::Enqueued);
    state.registry.warm("@a/loading", 0);
    for tag in ["@a/ready", "@a/disk", "@a/caching", "@a/broken"] {
        state.cache.ensure_cached(tag, 0);
    }
    state.cache.finish_download("@a/disk", Ok(()), 0);
    state.cache.finish_download("@a/ready", Ok(()), 0);
    state.cache.finish_download("@a/broken", Err("disk full".into()), 0);
    let mut statuses = collect_model_status(&state.registry, &state.cache);
    statuses.sort_by(|a, b| a.tag.cmp(&b.tag));
    let found: Vec<(&str, &str)> =
        statuses.iter().map(|s| (s.tag.as_str(), s.state.slug())).collect();
    assert_eq!(
        found,
        vec![
            ("@a/broken", "failed"),
            ("@a/caching", "caching"),
            ("@a/disk", "cached"),
            ("@a/loading", "loading"),
            ("@a/ready", "ready"),
        ]
    );
    assert_eq!(statuses[0].error.as_deref(), Some("disk full"));
    let ready = &statuses[4];
    assert_eq!(ready.batch_mode, Some(DispatchMode::Sequential));
    assert_eq!((ready.queue_depth, ready.total_predictions), (1, 1));
    assert_eq!(ready.latency_total, Some((8, 1)));
    assert_eq!(ready.load_time_us, 2);
    assert_eq!(ready.vram_mb, None);
    assert_eq!(statuses[3].batch_mode, None);
}

#[test]
fn wire_spellings_are_lowercase() {
    assert_eq!(DispatchMode::from_plan(&BatchPlan::Continuous).slug(), "continuous");
    assert_eq!(DispatchMode::from_plan(&BatchPlan::Sequential).slug(), "sequential");
    let buffered = BatchPlan::Buffered { params: NameSet::new(), capacity: 2 };
    assert_eq!(DispatchMode::from_plan(&buffered).slug(), "buffered");
    assert_eq!(ModelLifecycle::Caching.slug(), "caching");
    assert_eq!(ModelLifecycle::Failed.slug(), "failed");
}

#[test]
fn routes_are_appended_to_the_plane_url() {
    assert_eq!(
        heartbeat_url("https://plane//", "node-1"),
        "https://plane/v1/nodes/node-1/heartbeat"
    );
    assert_eq!(ingest_url("https://plane"), "https://plane/v1/kv/events");
    assert_eq!(ingest_url("/"), "/v1/kv/events");
}
