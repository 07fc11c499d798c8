//! Event relay: wire frames, continuity, flushing and the scan.

use muna_server::control::kv_relay::{
    classify_response, decode_message, discover_endpoint, parse_message, read_payload, scan,
    sidecar_tag, Admit, Continuity, FlushPlan, KvMessage, KvRelay, PostOutcome, RelayAction,
    RelayEvent, RelayTask, NOT_FOUND_BACKOFF,
};
use muna_server::inputs::NameSet;
use muna_server::prediction::Prediction;
use muna_server::value::Value;
use serde_json::Value as JsonValue;

fn json(text: &str) -> JsonValue {
    serde_json::from_str(text).unwrap()
}

fn frames(topic: &str, seq: u64, payload: &JsonValue) -> Vec<Vec<u8>> {
    vec![
        topic.as_bytes().to_vec(),
        seq.to_be_bytes().to_vec(),
        serde_json::to_vec(payload).unwrap(),
    ]
}

fn message(epoch: &str, seq: u64, snapshot: bool, events: usize) -> KvMessage {
    KvMessage {
        seq,
        epoch: epoch.to_string(),
        snapshot,
        events: (0..events).map(|i| JsonValue::from(seq * 100 + i as u64)).collect(),
    }
}

#[test]
fn parse_message_decodes_wire_frames() {
    let payload = json(
        r#"{
            "epoch": "abc",
            "seq": 42,
            "snapshot": false,
            "events": [{ "type": "stored", "block_hashes": ["ff"], "tier": "device" }]
        }"#,
    );
    let (seq, parsed) = parse_message(&frames("kv", 42, &payload)).unwrap();
    assert_eq!(seq, 42);
    assert_eq!(parsed, payload);
}

#[test]
fn parse_message_rejects_wrong_topic_or_arity() {
    let payload = json(r#"{ "seq": 1 }"#);
    assert!(parse_message(&frames("nope", 1, &payload)).is_none());
    let two_frames = vec![b"kv".to_vec(), b"x".to_vec()];
    assert!(parse_message(&two_frames).is_none());
}

#[test]
fn parse_message_rejects_bad_numbers_and_payloads() {
    let payload = json("{}");
    let mut short = frames("kv", 1, &payload);
    short[1] = vec![0; 7];
    assert!(parse_message(&short).is_none());
    let mut broken = frames("kv", 1, &payload);
    broken[2] = b"{".to_vec();
    assert!(parse_message(&broken).is_none());
    let big = parse_message(&frames("kv", 0x0102_0304_0506_0708, &payload)).unwrap();
    assert_eq!(big.0, 0x0102_0304_0506_0708);
}

#[test]
fn payload_fields_have_defaults() {
    let message = read_payload(5, &json("{}"));
    assert_eq!(message.seq, 5);
    assert_eq!(message.epoch, "");
    assert!(!message.snapshot);
    assert!(message.events.is_empty());
    let message = read_payload(6, &json(r#"{"epoch":"e","snapshot":true,"events":[1,2]}"#));
    assert_eq!(message.epoch, "e");
    assert!(message.snapshot);
    assert_eq!(message.events, vec![JsonValue::from(1), JsonValue::from(2)]);
}

#[test]
fn decode_message_reads_frames_and_fields() {
    let payload = json(r#"{"epoch":"e1","snapshot":true,"events":["x"]}"#);
    let message = decode_message(&frames("kv", 9, &payload)).unwrap();
    assert_eq!((message.seq, message.epoch.as_str(), message.snapshot), (9, "e1", true));
    assert_eq!(message.events, vec![JsonValue::from("x")]);
    assert!(decode_message(&vec![]).is_none());
}

#[test]
fn continuity_contiguous_deltas_admit() {
    let mut c = Continuity::default();
    assert_eq!(c.accept("e1", 1, false), Admit::Delta);
    assert_eq!(c.accept("e1", 2, false), Admit::Delta);
    assert_eq!(c.accept("e1", 3, false), Admit::Delta);
}

#[test]
fn continuity_seq_gap_is_discontinuous() {
    let mut c = Continuity::default();
    assert_eq!(c.accept("e1", 1, false), Admit::Delta);
    assert_eq!(c.accept("e1", 3, false), Admit::Gap);
}

#[test]
fn continuity_epoch_change_is_discontinuous() {
    let mut c = Continuity::default();
    assert_eq!(c.accept("e1", 1, false), Admit::Delta);
    assert_eq!(c.accept("e2", 2, false), Admit::Gap);
}

#[test]
fn continuity_snapshot_rebaselines() {
    let mut c = Continuity::default();
    assert_eq!(c.accept("e1", 1, false), Admit::Delta);
    // Engine restarted: new epoch arrives as a snapshot (rejoin path).
    assert_eq!(c.accept("e2", 17, true), Admit::Snapshot);
    assert_eq!(c.accept("e2", 18, false), Admit::Delta);
}

/// The framing and continuity of a published snapshot and the delta after it.
#[test]
fn pub_sub_round_trip_preserves_framing() {
    let snapshot = json(
        r#"{"epoch":"e1","seq":7,"snapshot":true,
            "events":[{"type":"stored","block_hashes":["aa","bb"],"tier":"device"}]}"#,
    );
    let (seq, payload) = parse_message(&frames("kv", 7, &snapshot)).unwrap();
    let mut continuity = Continuity::default();
    assert_eq!(seq, 7);
    assert_eq!(
        continuity.accept(
            payload["epoch"].as_str().unwrap(),
            seq,
            payload["snapshot"].as_bool().unwrap()
        ),
        Admit::Snapshot
    );
    let delta = json(
        r#"{"epoch":"e1","seq":8,"snapshot":false,
            "events":[{"type":"removed","block_hashes":["aa"],"tier":"device"}]}"#,
    );
    let (seq, payload) = parse_message(&frames("kv", 8, &delta)).unwrap();
    assert_eq!(seq, 8);
    assert_eq!(
        continuity.accept(
            payload["epoch"].as_str().unwrap(),
            seq,
            payload["snapshot"].as_bool().unwrap()
        ),
        Admit::Delta
    );
}

#[test]
fn judging_after_the_last_number_is_refused() {
    let mut c = Continuity::default();
    assert_eq!(c.accept("e1", u64::MAX, true), Admit::Snapshot);
    assert!(!c.can_accept("e1", false));
    assert!(c.can_accept("e1", true));
    assert!(c.can_accept("e2", false));
}

#[test]
fn relay_withholds_deltas_until_a_snapshot() {
    let mut relay = KvRelay::new();
    relay.start_session();
    assert!(relay.can_take(&message("e", 1, false, 1)));
    relay.on_message(message("e", 1, false, 1));
    // The plane never had a snapshot: reconnecting brings one.
    assert_eq!(relay.plan_flush(0), FlushPlan::Reconnect);
    relay.start_session();
    relay.on_message(message("e", 5, true, 2));
    relay.on_message(message("e", 6, false, 1));
    assert_eq!(relay.plan_flush(0), FlushPlan::Post);
    let batch = relay.batch().unwrap();
    assert_eq!(batch.epoch, "e");
    assert_eq!(batch.seq_range, (5, 6));
    assert!(batch.snapshot);
    assert_eq!(
        *batch.events,
        vec![JsonValue::from(500), JsonValue::from(501), JsonValue::from(600)]
    );
    assert!(!relay.finish_flush(PostOutcome::Accepted { need_snapshot: false }, 0));
    // From here deltas flow.
    relay.on_message(message("e", 7, false, 1));
    relay.on_message(message("e", 8, false, 2));
    assert_eq!(relay.plan_flush(0), FlushPlan::Post);
    let batch = relay.batch().unwrap();
    assert!(!batch.snapshot);
    assert_eq!(batch.seq_range, (7, 8));
    assert_eq!(
        *batch.events,
        vec![JsonValue::from(700), JsonValue::from(800), JsonValue::from(801)]
    );
}

#[test]
fn relay_keeps_events_in_order() {
    let mut relay = KvRelay::new();
    relay.start_session();
    // What waited before a snapshot is dropped with it.
    relay.on_message(message("old", 3, true, 1));
    relay.on_message(message("e", 10, true, 2));
    relay.on_message(message("e", 11, false, 0));
    relay.on_message(message("e", 12, false, 2));
    assert_eq!(relay.plan_flush(0), FlushPlan::Post);
    let batch = relay.batch().unwrap();
    assert_eq!(batch.seq_range, (10, 12));
    assert!(batch.snapshot);
    let expected: Vec<JsonValue> = vec![1000, 1001, 1200, 1201].into_iter().map(JsonValue::from).collect();
    assert_eq!(*batch.events, expected);
}

#[test]
fn relay_gap_asks_to_reconnect() {
    let mut relay = KvRelay::new();
    relay.start_session();
    assert!(!relay.on_message(message("e", 1, true, 1)));
    assert!(relay.on_message(message("e", 3, false, 1)));
}

#[test]
fn relay_plane_may_ask_for_a_snapshot() {
    let mut relay = KvRelay::new();
    relay.start_session();
    relay.on_message(message("e", 1, true, 1));
    assert_eq!(relay.plan_flush(0), FlushPlan::Post);
    assert!(relay.finish_flush(PostOutcome::Accepted { need_snapshot: true }, 0));
}

#[test]
fn relay_missing_route_suspends_posts() {
    let mut relay = KvRelay::new();
    relay.start_session();
    relay.on_message(message("e", 1, true, 1));
    assert_eq!(relay.plan_flush(10), FlushPlan::Post);
    relay.finish_flush(PostOutcome::NotFound, 10);
    relay.on_message(message("e", 2, true, 1));
    assert_eq!(relay.plan_flush(11), FlushPlan::Idle);
    let over = 10 + NOT_FOUND_BACKOFF as u64;
    relay.on_message(message("e", 3, true, 1));
    assert_eq!(relay.plan_flush(over), FlushPlan::Post);
}

#[test]
fn relay_idle_window_posts_nothing() {
    let mut relay = KvRelay::new();
    relay.start_session();
    assert!(relay.batch().is_none());
    relay.on_message(message("e", 1, true, 1));
    relay.plan_flush(0);
    relay.finish_flush(PostOutcome::Accepted { need_snapshot: false }, 0);
    assert_eq!(relay.plan_flush(0), FlushPlan::Idle);
}

#[test]
fn relay_steps_through_a_session() {
    let mut relay = KvRelay::new();
    assert_eq!(relay.step(RelayEvent::ConnectFailed, 0), RelayAction::ConnectLater);
    assert_eq!(relay.step(RelayEvent::Connected, 0), RelayAction::Listen);
    assert_eq!(relay.step(RelayEvent::Message(message("e", 1, true, 1)), 0), RelayAction::Listen);
    assert_eq!(relay.step(RelayEvent::FlushDue, 0), RelayAction::Post);
    let accepted = PostOutcome::Accepted { need_snapshot: false };
    assert_eq!(relay.step(RelayEvent::Posted(accepted), 0), RelayAction::Listen);
    assert_eq!(relay.step(RelayEvent::Message(message("e", 9, false, 1)), 0), RelayAction::Connect);
    assert_eq!(relay.step(RelayEvent::Cancelled, 0), RelayAction::Stop);
}

#[test]
fn responses_are_classified_by_status() {
    assert_eq!(classify_response(200, true), PostOutcome::Accepted { need_snapshot: true });
    assert_eq!(classify_response(204, false), PostOutcome::Accepted { need_snapshot: false });
    assert_eq!(classify_response(404, true), PostOutcome::NotFound);
    assert_eq!(classify_response(500, true), PostOutcome::Dropped);
    assert_eq!(classify_response(302, true), PostOutcome::Dropped);
}

#[test]
fn scan_follows_ready_models() {
    let tasks = vec![
        RelayTask { tag: "@a/live".into(), finished: false },
        RelayTask { tag: "@a/gone".into(), finished: false },
        RelayTask { tag: "@a/ended".into(), finished: true },
    ];
    let mut not_routed = NameSet::new();
    not_routed.insert("@a/plain");
    not_routed.insert("@a/unloaded");
    let ready = vec![
        "@a/live".to_string(),
        "@a/ended".to_string(),
        "@a/plain".to_string(),
        "@a/new".to_string(),
    ];
    let plan = scan(&tasks, &not_routed, &ready);
    assert!(plan.cancel.contains(&"@a/gone".to_string()));
    assert!(!plan.cancel.contains(&"@a/live".to_string()));
    assert!(plan.not_routed.contains("@a/plain"));
    assert!(!plan.not_routed.contains("@a/unloaded"));
    assert!(plan.discover.contains(&"@a/new".to_string()));
    assert!(!plan.discover.contains(&"@a/live".to_string()));
    assert!(!plan.discover.contains(&"@a/plain".to_string()));
    assert_eq!(plan.cancel, vec!["@a/gone".to_string()]);
    assert_eq!(plan.discover.len(), 2);
}

#[test]
fn endpoint_is_the_first_result_of_the_sidecar() {
    assert_eq!(sidecar_tag("@a/gemma"), "@a/gemma:kv");
    let mut prediction = Prediction {
        id: "pred".into(),
        tag: "@a/gemma".into(),
        created: "0".into(),
        results: Some(vec![Value::String("tcp://127.0.0.1:5557".into())]),
        latency: None,
        error: None,
        logs: None,
    };
    assert_eq!(discover_endpoint(&prediction), Some("tcp://127.0.0.1:5557".to_string()));
    prediction.results = Some(vec![Value::Null]);
    assert_eq!(discover_endpoint(&prediction), None);
}
