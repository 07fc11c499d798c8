//! Device lease segments.

use muna_server::serving::batch::{BatchConfig, BatchMode, BatchPlan, Parameter, Signature};
use muna_server::serving::lease::{
    judge_header, plan_weight, ready_weights, segment_name, segment_stats, slot_field, slot_label,
    slot_label_offset, weight_writes, AttachOutcome, AttachStep, Attachment, LeaseMode,
    LeaseSupervisor, SlotReading, ABI_VERSION, LABEL_SIZE, MAGIC, MAX_REGISTRANTS,
    SEGMENT_ABI_VERSION, SEGMENT_COND, SEGMENT_HOLDER, SEGMENT_MAGIC, SEGMENT_MODE, SEGMENT_MUTEX,
    SEGMENT_REGISTRANTS, SEGMENT_SIZE, SEGMENT_VIRTUAL_TIME, SLOT_LABEL, SLOT_LAST_HEARTBEAT_NS,
    SLOT_NS_HELD, SLOT_NS_WAITED, SLOT_PASS_NS, SLOT_PID, SLOT_SIZE, SLOT_SLOTS_HELD,
    SLOT_WAITING, SLOT_WEIGHT,
};
use muna_server::serving::registry::{Loaded, ModelRegistry};

/// Pins the layout of a segment.
#[test]
fn segment_layout_matches_nanosgl_abi_v1() {
    assert_eq!(SEGMENT_MAGIC, 0);
    assert_eq!(SEGMENT_ABI_VERSION, 4);
    assert_eq!(SEGMENT_MODE, 8);
    assert_eq!(SEGMENT_HOLDER, 12);
    assert_eq!(SEGMENT_VIRTUAL_TIME, 16);
    assert_eq!(SEGMENT_MUTEX, 32);
    assert_eq!(SEGMENT_COND, 96);
    assert_eq!(SEGMENT_REGISTRANTS, 160);
    assert_eq!(SLOT_PID, 0);
    assert_eq!(SLOT_WAITING, 4);
    assert_eq!(SLOT_WEIGHT, 8);
    assert_eq!(SLOT_PASS_NS, 16);
    assert_eq!(SLOT_SLOTS_HELD, 24);
    assert_eq!(SLOT_NS_HELD, 32);
    assert_eq!(SLOT_NS_WAITED, 40);
    assert_eq!(SLOT_LAST_HEARTBEAT_NS, 48);
    assert_eq!(SLOT_LABEL, 56);
    assert_eq!(SLOT_SIZE, 192);
    assert_eq!(SEGMENT_SIZE, 160 + 8 * 192);
}

/// Attaching with no engine registered anywhere is a clean no-op.
#[test]
fn absent_segments_are_a_noop() {
    let mut supervisor = LeaseSupervisor::new();
    for device in 0..16 {
        assert_eq!(supervisor.step(device, false), AttachStep::Probe);
        assert!(!supervisor.probed(device, AttachOutcome::Absent));
        assert_eq!(supervisor.known(device), None);
    }
    assert!(segment_stats(0, &vec![]).is_empty());
    assert!(weight_writes(&vec![], "@test/model", 3).is_empty());
    assert_eq!(LeaseMode::Fair.code(), 0);
    assert_eq!(LeaseMode::FreeRun.code(), 1);
}

#[test]
fn slots_are_laid_out_one_after_another() {
    assert_eq!(slot_field(0, SLOT_PID, 4), 160);
    assert_eq!(slot_field(1, SLOT_WEIGHT, 4), 160 + 192 + 8);
    assert_eq!(slot_field(MAX_REGISTRANTS - 1, SLOT_NS_WAITED, 8), 160 + 7 * 192 + 40);
    assert_eq!(slot_label_offset(2), 160 + 2 * 192 + 56);
    assert!(slot_label_offset(7) + LABEL_SIZE <= SEGMENT_SIZE);
}

#[test]
fn headers_are_judged() {
    assert_eq!(judge_header(MAGIC, ABI_VERSION), AttachOutcome::Attached);
    assert_eq!(judge_header(MAGIC, ABI_VERSION + 1), AttachOutcome::Rejected);
    assert_eq!(judge_header(0, ABI_VERSION), AttachOutcome::Absent);
    // A magic word that is neither unset nor right is not retried.
    assert_eq!(judge_header(MAGIC + 1, ABI_VERSION), AttachOutcome::Rejected);
    assert_eq!(judge_header(1, 0), AttachOutcome::Rejected);
    assert_eq!(segment_name(1234, 3), "/nsgl-lease-1234-dev3");
}

#[test]
fn attachments_follow_probes() {
    let mut supervisor = LeaseSupervisor::new();
    assert!(supervisor.probed(0, AttachOutcome::Attached));
    assert_eq!(supervisor.step(0, true), AttachStep::Use);
    // Every engine has left: the name is probed afresh.
    assert_eq!(supervisor.step(0, false), AttachStep::UnmapAndProbe);
    assert_eq!(supervisor.step(0, false), AttachStep::Probe);
    assert!(!supervisor.probed(1, AttachOutcome::Rejected));
    assert_eq!(supervisor.step(1, true), AttachStep::Skip);
    assert_eq!(supervisor.known(1), Some(Attachment::Rejected));
}

fn slot(pid: i32, label: &[u8], weight: u32) -> SlotReading {
    SlotReading { pid, label: label.to_vec(), weight, slots_held: 4, ns_held: 5, ns_waited: 6 }
}

#[test]
fn weights_are_written_where_they_differ() {
    let slots = vec![
        slot(10, b"@a/x\0\0", 1),
        slot(0, b"@a/x\0", 1),
        slot(11, b"@a/y\0", 1),
        slot(12, b"@a/x\0", 3),
        slot(13, b"@a/x", 2),
    ];
    assert_eq!(weight_writes(&slots, "@a/x", 3), vec![0, 4]);
    let stats = segment_stats(2, &slots);
    assert_eq!(stats.len(), 4);
    assert_eq!(stats[0].device, 2);
    assert_eq!(stats[0].label, "@a/x");
    assert_eq!(stats[1].label, "@a/y");
    assert_eq!((stats[0].slots_held, stats[0].ns_held, stats[0].ns_waited), (4, 5, 6));
}

#[test]
fn labels_end_at_a_zero_byte() {
    assert_eq!(slot_label(&b"abc\0def".to_vec()), "abc");
    assert_eq!(slot_label(&b"".to_vec()), "");
    // Malformed text is replaced, not refused.
    assert_eq!(slot_label(&vec![b'a', 0xff, b'b']), "a\u{fffd}b");
    assert_eq!(slot_label(&"é".as_bytes().to_vec()), "é");
}

#[test]
fn continuous_models_weigh_more() {
    assert_eq!(plan_weight(&BatchPlan::Continuous), 3);
    assert_eq!(plan_weight(&BatchPlan::Sequential), 1);
    let mut registry = ModelRegistry::new(None);
    for (tag, batch) in [
        ("@a/chat", Some(BatchConfig { mode: BatchMode::Continuous, capacity: None })),
        ("@a/image", None),
    ] {
        registry.warm(tag, 0);
        let signature = Signature {
            inputs: vec![Parameter { name: "p".into(), dtype: None, batch }],
            outputs: vec![],
        };
        let outcome = Loaded { signature, handle: 0, download: 0, load: 0 };
        registry.complete_load(tag, Ok(outcome), 0, 0, (None, None));
    }
    registry.warm("@a/loading", 0);
    let mut weights = ready_weights(&registry);
    weights.sort();
    assert_eq!(weights, vec![("@a/chat".to_string(), 3), ("@a/image".to_string(), 1)]);
}
