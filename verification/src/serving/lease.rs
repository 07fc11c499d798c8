//! Policy side of the GPU device lease.
//!
//! Engines in one process share a device through a segment of shared memory per
//! device. The supervisor attaches to the segments to write scheduling weights
//! and to read contention counters. The layout of a segment is fixed here by
//! the offset of every field.

use super::batch;
use super::batch::BatchPlan;
use super::registry;
use super::registry::ModelRegistry;
use crate::text;
use crate::text::{decimal_text, joined, same_text, signed_decimal_text};
use std::collections::HashMap;
use vstd::prelude::*;
use vstd::std_specs::hash::*;
use vstd::utf8::*;

verus! {

/// What a segment starts with once its creator has initialized it.
pub const MAGIC: u32 = 0x4E53_474C;

/// Layout version that is understood.
pub const ABI_VERSION: u32 = 1;

/// Slots per segment.
pub const MAX_REGISTRANTS: usize = 8;

/// Devices that are probed.
pub const MAX_DEVICES: i32 = 16;

/// Cadence of the weight reconciliation, in nanoseconds.
pub const RECONCILE_INTERVAL: u64 = 5_000_000_000;

/// Offsets of a segment's fields, in bytes.
pub const SEGMENT_MAGIC: usize = 0;

pub const SEGMENT_ABI_VERSION: usize = 4;

pub const SEGMENT_MODE: usize = 8;

pub const SEGMENT_HOLDER: usize = 12;

pub const SEGMENT_VIRTUAL_TIME: usize = 16;

pub const SEGMENT_MUTEX: usize = 32;

pub const SEGMENT_COND: usize = 96;

pub const SEGMENT_REGISTRANTS: usize = 160;

/// Size of a segment.
pub const SEGMENT_SIZE: usize = 1696;

/// Offsets of a slot's fields, in bytes.
pub const SLOT_PID: usize = 0;

pub const SLOT_WAITING: usize = 4;

pub const SLOT_WEIGHT: usize = 8;

pub const SLOT_PASS_NS: usize = 16;

pub const SLOT_SLOTS_HELD: usize = 24;

pub const SLOT_NS_HELD: usize = 32;

pub const SLOT_NS_WAITED: usize = 40;

pub const SLOT_LAST_HEARTBEAT_NS: usize = 48;

pub const SLOT_LABEL: usize = 56;

/// Size of a label.
pub const LABEL_SIZE: usize = 128;

/// Size of a slot.
pub const SLOT_SIZE: usize = 192;

/// Whether a slot's field of a size may stand at an offset: it fits in the slot
/// and is aligned.
pub open spec fn is_slot_field(offset: usize, size: usize) -> bool {
    offset + size <= SLOT_SIZE && (size == 4 || size == 8) && offset as int % size as int == 0
}

/// The offset in the segment of a slot's field.
pub fn slot_field(slot: usize, offset: usize, size: usize) -> (r: usize)
    requires
        slot < MAX_REGISTRANTS,
        is_slot_field(offset, size),
    ensures
        r == SEGMENT_REGISTRANTS + slot * SLOT_SIZE + offset,
        SEGMENT_REGISTRANTS <= r,
        r + size <= SEGMENT_SIZE,
        r as int % size as int == 0,
{
    SEGMENT_REGISTRANTS + slot * SLOT_SIZE + offset
}

/// The offset in the segment of a slot's label.
pub fn slot_label_offset(slot: usize) -> (r: usize)
    requires
        slot < MAX_REGISTRANTS,
    ensures
        r == SEGMENT_REGISTRANTS + slot * SLOT_SIZE + SLOT_LABEL,
        r + LABEL_SIZE <= SEGMENT_SIZE,
{
    SEGMENT_REGISTRANTS + slot * SLOT_SIZE + SLOT_LABEL
}

/// The slots fill the segment behind its header, and no two overlap.
pub proof fn law_slots_are_disjoint(a: usize, b: usize, i: int, j: int)
    requires
        a < b < MAX_REGISTRANTS,
        0 <= i < SLOT_SIZE,
        0 <= j < SLOT_SIZE,
    ensures
        SEGMENT_REGISTRANTS + a * SLOT_SIZE + i < SEGMENT_REGISTRANTS + b * SLOT_SIZE + j,
        SEGMENT_REGISTRANTS + MAX_REGISTRANTS * SLOT_SIZE == SEGMENT_SIZE,
{
}

/// The fields that are read and written are fields: they fit, are aligned, and
/// stand one after another.
pub proof fn law_slot_fields_fit()
    ensures
        is_slot_field(SLOT_PID, 4),
        is_slot_field(SLOT_WAITING, 4),
        is_slot_field(SLOT_WEIGHT, 4),
        is_slot_field(SLOT_PASS_NS, 8),
        is_slot_field(SLOT_SLOTS_HELD, 8),
        is_slot_field(SLOT_NS_HELD, 8),
        is_slot_field(SLOT_NS_WAITED, 8),
        is_slot_field(SLOT_LAST_HEARTBEAT_NS, 8),
        SLOT_PID + 4 <= SLOT_WAITING,
        SLOT_WAITING + 4 <= SLOT_WEIGHT,
        SLOT_WEIGHT + 4 <= SLOT_PASS_NS,
        SLOT_PASS_NS + 8 <= SLOT_SLOTS_HELD,
        SLOT_SLOTS_HELD + 8 <= SLOT_NS_HELD,
        SLOT_NS_HELD + 8 <= SLOT_NS_WAITED,
        SLOT_NS_WAITED + 8 <= SLOT_LAST_HEARTBEAT_NS,
        SLOT_LAST_HEARTBEAT_NS + 8 <= SLOT_LABEL,
        SLOT_LABEL + LABEL_SIZE <= SLOT_SIZE,
{
}

/// Global arbitration mode.
#[derive(Clone, Copy, Debug, PartialEq, Eq, Structural)]
pub enum LeaseMode {
    /// Stride-fair queueing.
    Fair,
    /// Engines keep reporting but never block on each other.
    FreeRun,
}

impl LeaseMode {
    /// The number that stands for the mode in a segment.
    pub fn code(&self) -> (r: u32)
        ensures
            r == (match self {
                LeaseMode::Fair => 0u32,
                LeaseMode::FreeRun => 1u32,
            }),
    {
        match self {
            LeaseMode::Fair => 0,
            LeaseMode::FreeRun => 1,
        }
    }
}

/// What probing for a device's segment found.
#[derive(Clone, Copy, Debug, PartialEq, Eq, Structural)]
pub enum AttachOutcome {
    /// A usable segment.
    Attached,
    /// A segment that cannot be used, because its magic word or its layout is
    /// another; not probed again.
    Rejected,
    /// No segment, or one that is still being initialized; probed again later.
    Absent,
}

/// What the header of a mapped segment says of it.
pub open spec fn header_outcome(magic: u32, abi_version: u32) -> AttachOutcome {
    if magic == 0 {
        AttachOutcome::Absent
    } else if magic != MAGIC || abi_version != ABI_VERSION {
        AttachOutcome::Rejected
    } else {
        AttachOutcome::Attached
    }
}

/// Judges the header of a mapped segment. The magic word is zero until the
/// segment has been initialized.
pub fn judge_header(magic: u32, abi_version: u32) -> (r: AttachOutcome)
    ensures
        r == header_outcome(magic, abi_version),
{
    if magic == 0 {
        AttachOutcome::Absent
    } else if magic != MAGIC || abi_version != ABI_VERSION {
        AttachOutcome::Rejected
    } else {
        AttachOutcome::Attached
    }
}

/// The name of a device's segment.
pub fn segment_name(pid: u32, device: i32) -> (r: String)
    ensures
        r@ == "/nsgl-lease-"@ + text::decimal(pid as nat) + "-dev"@ + text::signed_decimal(
            device as int,
        ),
{
    let mut out: String = joined("/nsgl-lease-", decimal_text(pid as u128).as_str());
    out.append("-dev");
    out.append(signed_decimal_text(device as i64).as_str());
    out
}

/// What a slot of a segment held when it was read.
#[derive(Debug)]
pub struct SlotReading {
    /// Owning process; zero marks a free slot.
    pub pid: i32,
    /// Label bytes, up to a zero byte.
    pub label: Vec<u8>,
    pub weight: u32,
    pub slots_held: u64,
    pub ns_held: u64,
    pub ns_waited: u64,
}

/// What `String::from_utf8_lossy` makes of bytes.
pub uninterp spec fn lossy_text(bytes: Seq<u8>) -> Seq<char>;

/// `String::from_utf8_lossy`: the text of valid UTF-8; what replaces invalid
/// bytes is named, not spelled out.
#[verifier::external_body]
fn utf8_lossy(bytes: &[u8]) -> (r: String)
    ensures
        r@ == lossy_text(bytes@),
        valid_utf8(bytes@) ==> r@ == decode_utf8(bytes@),
{
    String::from_utf8_lossy(bytes).into_owned()
}

/// The bytes of a label: those before the first zero byte.
pub open spec fn label_bytes(label: Seq<u8>) -> Seq<u8>
    decreases label.len(),
{
    if label.len() == 0 || label[0] == 0 {
        Seq::empty()
    } else {
        seq![label[0]] + label_bytes(label.drop_first())
    }
}

proof fn lemma_label_bytes(label: Seq<u8>, n: int)
    requires
        0 <= n <= label.len(),
        forall|i: int| 0 <= i < n ==> #[trigger] label[i] != 0,
        n == label.len() || label[n] == 0,
    ensures
        label_bytes(label) == label.take(n),
    decreases label.len(),
{
    if n > 0 {
        assert(label[0] != 0);
        lemma_label_bytes(label.drop_first(), n - 1);
        assert(label.take(n) =~= seq![label[0]] + label.drop_first().take(n - 1));
    } else {
        assert(label.take(0) =~= Seq::<u8>::empty());
    }
}

/// A slot's label as a text.
pub fn slot_label(label: &Vec<u8>) -> (r: String)
    ensures
        r@ == lossy_text(label_bytes(label@)),
        valid_utf8(label_bytes(label@)) ==> r@ == decode_utf8(label_bytes(label@)),
{
    let mut bytes: Vec<u8> = Vec::new();
    let mut i: usize = 0;
    while i < label.len() && label[i] != 0
        invariant
            i <= label@.len(),
            bytes@ == label@.take(i as int),
            forall|j: int| 0 <= j < i ==> #[trigger] label@[j] != 0,
        decreases label.len() - i,
    {
        bytes.push(label[i]);
        assert(bytes@ =~= label@.take(i + 1));
        i = i + 1;
    }
    proof {
        lemma_label_bytes(label@, i as int);
    }
    utf8_lossy(bytes.as_slice())
}

/// Whether a slot's weight has to be set: it is live, has the label, and its
/// weight is another.
pub open spec fn needs_weight(slot: SlotReading, label: Seq<char>, weight: u32) -> bool {
    slot.pid != 0 && lossy_text(label_bytes(slot.label@)) == label && slot.weight != weight
}

/// Whether positions are those of the slots whose weight has to be set, in order.
pub open spec fn are_writes(
    writes: Seq<usize>,
    slots: Seq<SlotReading>,
    label: Seq<char>,
    weight: u32,
) -> bool {
    &&& forall|k: int|
        0 <= k < writes.len() ==> (#[trigger] writes[k]) < slots.len() && needs_weight(
            slots[writes[k] as int],
            label,
            weight,
        )
    &&& forall|a: int, b: int|
        0 <= a < b < writes.len() ==> (#[trigger] writes[a]) < (#[trigger] writes[b])
    &&& forall|i: int|
        0 <= i < slots.len() && needs_weight(#[trigger] slots[i], label, weight)
            ==> writes.contains(i as usize)
}

/// The slots of a segment whose weight has to be set for a label.
pub fn weight_writes(slots: &Vec<SlotReading>, label: &str, weight: u32) -> (r: Vec<usize>)
    ensures
        are_writes(r@, slots@, label@, weight),
{
    let mut out: Vec<usize> = Vec::new();
    let mut i: usize = 0;
    while i < slots.len()
        invariant
            i <= slots@.len(),
            forall|k: int|
                0 <= k < out@.len() ==> (#[trigger] out@[k]) < i && needs_weight(
                    slots@[out@[k] as int],
                    label@,
                    weight,
                ),
            forall|a: int, b: int|
                0 <= a < b < out@.len() ==> (#[trigger] out@[a]) < (#[trigger] out@[b]),
            forall|j: int|
                0 <= j < i && needs_weight(#[trigger] slots@[j], label@, weight) ==> out@.contains(
                    j as usize,
                ),
        decreases slots.len() - i,
    {
        let slot: &SlotReading = &slots[i];
        let ghost before = out@;
        if slot.pid != 0 && same_text(slot_label(&slot.label).as_str(), label) && slot.weight
            != weight {
            out.push(i);
            assert(out@[before.len() as int] == i);
        }
        proof {
            assert forall|j: int|
                0 <= j < i + 1 && needs_weight(
                    #[trigger] slots@[j],
                    label@,
                    weight,
                ) implies out@.contains(j as usize) by {
                if j < i {
                    let k = choose|k: int| 0 <= k < before.len() && before[k] == j as usize;
                    assert(out@[k] == j as usize);
                } else {
                    assert(out@[before.len() as int] == j as usize);
                }
            }
        }
        i = i + 1;
    }
    out
}

/// Counters of one engine.
#[derive(Debug)]
pub struct RegistrantStats {
    pub device: i32,
    pub label: String,
    pub weight: u32,
    pub slots_held: u64,
    pub ns_held: u64,
    pub ns_waited: u64,
}

/// The live slots, in order.
pub open spec fn live(slots: Seq<SlotReading>) -> Seq<SlotReading>
    decreases slots.len(),
{
    if slots.len() == 0 {
        Seq::empty()
    } else {
        let before = live(slots.drop_last());
        if slots.last().pid != 0 {
            before.push(slots.last())
        } else {
            before
        }
    }
}

/// Whether counters are those of a slot.
pub open spec fn is_stats_of(stats: RegistrantStats, slot: SlotReading, device: i32) -> bool {
    &&& stats.device == device
    &&& stats.label@ == lossy_text(label_bytes(slot.label@))
    &&& stats.weight == slot.weight
    &&& stats.slots_held == slot.slots_held
    &&& stats.ns_held == slot.ns_held
    &&& stats.ns_waited == slot.ns_waited
}

/// The counters of a device's live slots.
pub fn segment_stats(device: i32, slots: &Vec<SlotReading>) -> (r: Vec<RegistrantStats>)
    ensures
        r@.len() == live(slots@).len(),
        forall|i: int|
            0 <= i < r@.len() ==> is_stats_of(#[trigger] r@[i], live(slots@)[i], device),
{
    let mut out: Vec<RegistrantStats> = Vec::new();
    let mut i: usize = 0;
    while i < slots.len()
        invariant
            i <= slots@.len(),
            out@.len() == live(slots@.take(i as int)).len(),
            forall|j: int|
                0 <= j < out@.len() ==> is_stats_of(
                    #[trigger] out@[j],
                    live(slots@.take(i as int))[j],
                    device,
                ),
        decreases slots.len() - i,
    {
        assert(slots@.take(i + 1).drop_last() =~= slots@.take(i as int));
        let slot: &SlotReading = &slots[i];
        if slot.pid != 0 {
            out.push(
                RegistrantStats {
                    device,
                    label: slot_label(&slot.label),
                    weight: slot.weight,
                    slots_held: slot.slots_held,
                    ns_held: slot.ns_held,
                    ns_waited: slot.ns_waited,
                },
            );
        }
        i = i + 1;
    }
    assert(slots@.take(slots@.len() as int) =~= slots@);
    out
}

/// What the supervisor knows of a device.
#[derive(Clone, Copy, Debug, PartialEq, Eq, Structural)]
pub enum Attachment {
    /// A segment is mapped.
    Mapped,
    /// Its segment has another layout.
    Rejected,
}

/// What to do to use a device's segment.
#[derive(Clone, Copy, Debug, PartialEq, Eq, Structural)]
pub enum AttachStep {
    /// Use the mapped segment.
    Use,
    /// There is nothing to use.
    Skip,
    /// Probe for a segment.
    Probe,
    /// Unmap the segment, which every engine has left, and probe for a new one.
    UnmapAndProbe,
}

/// What to do to use a device's segment, by what is known of it and whether its
/// mapped segment has live slots.
pub open spec fn step_of(known: Option<Attachment>, live: bool) -> AttachStep {
    match known {
        Some(Attachment::Rejected) => AttachStep::Skip,
        Some(Attachment::Mapped) => if live {
            AttachStep::Use
        } else {
            AttachStep::UnmapAndProbe
        },
        None => AttachStep::Probe,
    }
}

/// What is known of devices after one was stepped.
pub open spec fn after_step(
    devices: Map<i32, Attachment>,
    device: i32,
    live: bool,
) -> Map<i32, Attachment> {
    if devices.dom().contains(device) && devices[device] == Attachment::Mapped && !live {
        devices.remove(device)
    } else {
        devices
    }
}

/// What is known of devices after one was probed.
pub open spec fn after_probe(
    devices: Map<i32, Attachment>,
    device: i32,
    outcome: AttachOutcome,
) -> Map<i32, Attachment> {
    match outcome {
        AttachOutcome::Attached => devices.insert(device, Attachment::Mapped),
        AttachOutcome::Rejected => devices.insert(device, Attachment::Rejected),
        AttachOutcome::Absent => devices,
    }
}

/// Attaches lazily to the segments of this process. Engines remove a segment
/// when the last one leaves, so a mapping without live slots is dropped and the
/// name is probed afresh.
#[derive(Debug)]
pub struct LeaseSupervisor {
    devices: HashMap<i32, Attachment>,
}

impl View for LeaseSupervisor {
    type V = Map<i32, Attachment>;

    closed spec fn view(&self) -> Map<i32, Attachment> {
        self.devices@
    }
}

impl LeaseSupervisor {
    /// A supervisor that knows no segment.
    pub fn new() -> (r: LeaseSupervisor)
        ensures
            r@ == Map::<i32, Attachment>::empty(),
    {
        broadcast use group_hash_axioms;

        LeaseSupervisor { devices: HashMap::new() }
    }

    /// What is known of a device.
    pub fn known(&self, device: i32) -> (r: Option<Attachment>)
        ensures
            r == (if self@.dom().contains(device) {
                Some(self@[device])
            } else {
                None
            }),
    {
        broadcast use group_hash_axioms;

        match self.devices.get(&device) {
            Some(known) => Some(*known),
            None => None,
        }
    }

    /// What to do to use a device's segment; `live` tells whether its mapped
    /// segment, if there is one, has live slots.
    pub fn step(&mut self, device: i32, live: bool) -> (r: AttachStep)
        ensures
            r == step_of(
                if old(self)@.dom().contains(device) {
                    Some(old(self)@[device])
                } else {
                    None
                },
                live,
            ),
            final(self)@ == after_step(old(self)@, device, live),
    {
        broadcast use group_hash_axioms;

        match self.known(device) {
            Some(Attachment::Rejected) => AttachStep::Skip,
            Some(Attachment::Mapped) => {
                if live {
                    AttachStep::Use
                } else {
                    let removed: Option<Attachment> = self.devices.remove(&device);
                    AttachStep::UnmapAndProbe
                }
            },
            None => AttachStep::Probe,
        }
    }

    /// Takes the outcome of a probe; returns whether there is a segment to use.
    pub fn probed(&mut self, device: i32, outcome: AttachOutcome) -> (r: bool)
        ensures
            r == (outcome == AttachOutcome::Attached),
            final(self)@ == after_probe(old(self)@, device, outcome),
    {
        broadcast use group_hash_axioms;

        match outcome {
            AttachOutcome::Attached => {
                let replaced: Option<Attachment> = self.devices.insert(device, Attachment::Mapped);
                true
            },
            AttachOutcome::Rejected => {
                let replaced: Option<Attachment> = self.devices.insert(
                    device,
                    Attachment::Rejected,
                );
                false
            },
            AttachOutcome::Absent => false,
        }
    }
}

/// Without a segment nothing changes: a probe that finds none leaves what is
/// known as it was, and the device is probed again.
pub proof fn law_absent_segments_change_nothing(devices: Map<i32, Attachment>, device: i32)
    requires
        !devices.dom().contains(device),
    ensures
        after_probe(after_step(devices, device, false), device, AttachOutcome::Absent) == devices,
        step_of(None, false) == AttachStep::Probe,
{
}

/// A rejected segment is never probed again.
pub proof fn law_rejected_segments_stay_rejected(
    devices: Map<i32, Attachment>,
    device: i32,
    live: bool,
)
    ensures
        step_of(
            Some(after_probe(devices, device, AttachOutcome::Rejected)[device]),
            live,
        ) == AttachStep::Skip,
        after_step(
            after_probe(devices, device, AttachOutcome::Rejected),
            device,
            live,
        ) == after_probe(devices, device, AttachOutcome::Rejected),
{
}

/// The weight of a plan: models that batch continuously get three shares under
/// contention, others one.
pub open spec fn weight_of(plan: batch::PlanView) -> u32 {
    match plan {
        batch::PlanView::Continuous => 3,
        _ => 1,
    }
}

/// The weight of a plan.
pub fn plan_weight(plan: &BatchPlan) -> (r: u32)
    ensures
        r == weight_of(plan@),
{
    match plan {
        BatchPlan::Continuous => 3,
        BatchPlan::Sequential => 1,
        BatchPlan::Buffered { .. } => 1,
    }
}

/// The weights to set: one per ready model.
pub fn ready_weights(models: &ModelRegistry) -> (r: Vec<(String, u32)>)
    requires
        models.wf(),
    ensures
        forall|i: int|
            0 <= i < r@.len() ==> registry::is_ready(models@, (#[trigger] r@[i]).0@) && r@[i].1
                == weight_of(models@[r@[i].0@].state->Ready_0.plan@),
        forall|i: int, j: int|
            0 <= i < j < r@.len() ==> (#[trigger] r@[i]).0@ != (#[trigger] r@[j]).0@,
        forall|tag: Seq<char>| #[trigger]
            registry::is_ready(models@, tag) ==> exists|i: int|
                0 <= i < r@.len() && (#[trigger] r@[i]).0@ == tag,
{
    let tags: Vec<String> = models.ready_tags();
    let mut out: Vec<(String, u32)> = Vec::new();
    let mut i: usize = 0;
    while i < tags.len()
        invariant
            models.wf(),
            i <= tags@.len(),
            out@.len() == i,
            forall|j: int|
                0 <= j < tags@.len() ==> registry::is_ready(models@, (#[trigger] tags@[j])@),
            forall|j: int|
                0 <= j < i ==> (#[trigger] out@[j]).0@ == tags@[j]@ && out@[j].1 == weight_of(
                    models@[tags@[j]@].state->Ready_0.plan@,
                ),
        decreases tags.len() - i,
    {
        assert(registry::is_ready(models@, tags@[i as int]@));
        let weight: u32 = match models.ready(tags[i].as_str()) {
            Some(model) => plan_weight(&model.plan),
            None => 1,
        };
        out.push((tags[i].clone(), weight));
        i = i + 1;
    }
    proof {
        assert forall|i: int| 0 <= i < out@.len() implies registry::is_ready(
            models@,
            (#[trigger] out@[i]).0@,
        ) by {
            assert(registry::is_ready(models@, tags@[i]@));
        }
        assert forall|i: int, j: int| 0 <= i < j < out@.len() implies (#[trigger] out@[i]).0@ != (
        #[trigger] out@[j]).0@ by {
            assert(tags@[i]@ != tags@[j]@);
        }
        assert forall|tag: Seq<char>| #[trigger] registry::is_ready(models@, tag) implies exists|
            i: int,
        |
            0 <= i < out@.len() && (#[trigger] out@[i]).0@ == tag by {
            let k = choose|k: int| 0 <= k < tags@.len() && (#[trigger] tags@[k])@ == tag;
            assert(out@[k].0@ == tag);
        }
    }
    out
}

/// The live slots are those that a process owns, in the order of the segment.
pub proof fn law_live_slots_are_owned(slots: Seq<SlotReading>)
    ensures
        live(slots) == slots.filter(|slot: SlotReading| slot.pid != 0),
    decreases slots.len(),
{
    reveal(Seq::filter);
    if slots.len() > 0 {
        law_live_slots_are_owned(slots.drop_last());
    }
}

/// A label ends before its first zero byte, and holds all that comes before.
pub proof fn law_labels_end_at_zero(label: Seq<u8>)
    ensures
        label_bytes(label).len() <= label.len(),
        forall|i: int|
            0 <= i < label_bytes(label).len() ==> #[trigger] label_bytes(label)[i] == label[i]
                && label[i] != 0,
        label_bytes(label).len() < label.len() ==> label[label_bytes(label).len() as int] == 0,
    decreases label.len(),
{
    if label.len() > 0 && label[0] != 0 {
        let rest = label.drop_first();
        law_labels_end_at_zero(rest);
        assert forall|i: int| 0 <= i < label_bytes(label).len() implies #[trigger] label_bytes(
            label,
        )[i] == label[i] && label[i] != 0 by {
            if i > 0 {
                assert(label_bytes(rest)[i - 1] == rest[i - 1]);
            }
        }
        if label_bytes(label).len() < label.len() {
            assert(rest[label_bytes(rest).len() as int] == 0);
        }
    }
}

/// A weight is written only where it changes something: to a slot that a process owns
/// under the label, and that has another weight. Once it is written it is not written
/// again, and a free slot never is.
pub proof fn law_weights_settle(slot: SlotReading, label: Seq<char>, weight: u32)
    ensures
        needs_weight(slot, label, weight) <==> slot.pid != 0 && slot.weight != weight && lossy_text(
            label_bytes(slot.label@),
        ) == label,
        !needs_weight((SlotReading { weight, ..slot }), label, weight),
        !needs_weight((SlotReading { pid: 0, ..slot }), label, weight),
{
}

/// The counters of an engine are those of its slot, each under its own name, and of the
/// device that the segment is of.
pub proof fn law_counters_are_those_of_the_slot(
    stats: RegistrantStats,
    slot: SlotReading,
    device: i32,
)
    requires
        is_stats_of(stats, slot, device),
    ensures
        stats.device == device,
        stats.weight == slot.weight,
        stats.slots_held == slot.slots_held,
        stats.ns_held == slot.ns_held,
        stats.ns_waited == slot.ns_waited,
        stats.label@ == lossy_text(label_bytes(slot.label@)),
{
}

/// A mapped segment is used as long as an engine is in it. Once all have left it is
/// forgotten, so that the device is probed again; a device that nothing is known of is
/// probed, and other devices are not affected.
pub proof fn law_segments_are_used_while_live(
    devices: Map<i32, Attachment>,
    device: i32,
    live: bool,
)
    ensures
        ({
            let known = if devices.dom().contains(device) {
                Some(devices[device])
            } else {
                None
            };
            let step = step_of(known, live);
            let next = after_step(devices, device, live);
            &&& step == AttachStep::Use <==> known == Some(Attachment::Mapped) && live
            &&& step == AttachStep::UnmapAndProbe <==> known == Some(Attachment::Mapped) && !live
            &&& step == AttachStep::Skip <==> known == Some(Attachment::Rejected)
            &&& step == AttachStep::Probe <==> known is None
            &&& next.remove(device) == devices.remove(device)
            &&& next.dom().contains(device) <==> known is Some && step != AttachStep::UnmapAndProbe
            &&& next.dom().contains(device) ==> next[device] == devices[device]
        }),
{
    assert(after_step(devices, device, live).remove(device) =~= devices.remove(device));
}

/// What a probe found is known of the device afterwards, and of no other: a usable
/// segment is mapped, an unusable one rejected, and a missing one not known.
pub proof fn law_probes_are_remembered(
    devices: Map<i32, Attachment>,
    device: i32,
    outcome: AttachOutcome,
)
    ensures
        ({
            let next = after_probe(devices, device, outcome);
            &&& next.remove(device) == devices.remove(device)
            &&& outcome == AttachOutcome::Attached ==> next.dom().contains(device) && next[device]
                == Attachment::Mapped
            &&& outcome == AttachOutcome::Rejected ==> next.dom().contains(device) && next[device]
                == Attachment::Rejected
            &&& outcome == AttachOutcome::Absent ==> next == devices
        }),
{
    assert(after_probe(devices, device, outcome).remove(device) =~= devices.remove(device));
}

/// A segment is used exactly where its header is that of this layout. One without a
/// magic word is still being made, whatever else it holds.
pub proof fn law_headers_are_judged(magic: u32, abi_version: u32)
    ensures
        header_outcome(magic, abi_version) == AttachOutcome::Attached <==> magic == 0x4E53_474C
            && abi_version == 1,
        header_outcome(magic, abi_version) == AttachOutcome::Absent <==> magic == 0,
{
}

/// A model that batches continuously weighs three times as much as any other.
pub proof fn law_continuous_models_weigh_three(plan: BatchPlan)
    ensures
        plan is Continuous ==> weight_of(plan@) == 3,
        !(plan is Continuous) ==> weight_of(plan@) == 1,
{
}

/// A weight is written to exactly the slots that need it: those that a process owns under
/// the label and that have another weight.
pub proof fn law_weights_reach_their_slots(
    writes: Seq<usize>,
    slots: Seq<SlotReading>,
    label: Seq<char>,
    weight: u32,
    i: usize,
)
    requires
        are_writes(writes, slots, label, weight),
        i < slots.len(),
    ensures
        writes.contains(i) <==> slots[i as int].pid != 0 && slots[i as int].weight != weight
            && lossy_text(label_bytes(slots[i as int].label@)) == label,
{
    if writes.contains(i) {
        let k = choose|k: int| 0 <= k < writes.len() && writes[k] == i;
        assert(needs_weight(slots[writes[k] as int], label, weight));
    }
    if needs_weight(slots[i as int], label, weight) {
        assert(writes.contains((i as int) as usize));
    }
}

} // verus!
