//! Per-model load-state machine.
//!
//! Large predictors take tens of seconds to start, so each model's lifecycle is
//! tracked: loading (one warmup in progress), ready, or failed. Requests that
//! arrive during a load wait up to a threshold, then are told when to retry.
//! Clock readings are in nanoseconds.

use super::batch;
use super::batch::{BatchPlan, Signature};
use super::stats;
use super::stats::{ModelStats, PredictionSample};
use crate::prediction::PredictError;
use crate::inputs::NameSet;
use crate::tag_map::TagMap;
use vstd::prelude::*;

verus! {

/// How long a request waits on a loading model before it gives up.
pub const HOLD_THRESHOLD: u128 = 10_000_000_000;

/// Expected load time in seconds before any load has completed.
pub const DEFAULT_LOAD_SECS: u64 = 30;

/// A failed load is not repeated by reconciliation until this has elapsed, so
/// that a goal asserted every beat cannot hot-loop loads.
pub const FAILED_RETRY_BACKOFF: u64 = 60_000_000_000;

/// Nanoseconds in a second.
pub const SECOND: u64 = 1_000_000_000;

/// A model whose engine is warm.
#[derive(Debug)]
pub struct ReadyModel {
    /// Names the client that loaded the model and owns its native predictor.
    pub handle: u64,
    /// When the load completed.
    pub loaded_at: u64,
    /// How predictions are dispatched.
    pub plan: BatchPlan,
    /// Live counters.
    pub stats: ModelStats,
}

/// Lifecycle state of one model. Absence is the fourth state.
#[derive(Debug)]
pub enum ModelState {
    /// One warmup in progress since a time.
    Loading { since: u64 },
    /// Engine warm.
    Ready(ReadyModel),
    /// The warmup failed at a time.
    Failed { error: String, at: u64 },
}

/// One tag's entry.
#[derive(Debug)]
pub struct Slot {
    pub state: ModelState,
    /// An unload arrived while the load was in flight. A load cannot be
    /// cancelled, so the model is deleted when it completes.
    pub unload_requested: bool,
}

/// Why a model is not available.
#[derive(Debug)]
pub enum RegistryError {
    /// Still loading; retry after some seconds.
    Loading { retry_after: u64 },
    /// The warmup failed.
    Failed(String),
    /// The tag is not in the pinned model set.
    NotServed(String),
}

/// What a successful warmup yields.
#[derive(Debug)]
pub struct Loaded {
    pub signature: Signature,
    /// Names the client that owns the native predictor.
    pub handle: u64,
    /// Duration of the download that preceded the load.
    pub download: u128,
    /// Duration of the load with every resource on disk.
    pub load: u128,
}

/// A ready model as a request holds it.
#[derive(Debug)]
pub struct ModelHandle {
    pub handle: u64,
    pub plan: BatchPlan,
}

/// What a request for a model does next.
#[derive(Debug)]
pub enum ReadyPoll {
    /// The model is warm.
    Ready(ModelHandle),
    /// The model is not available.
    Refused(RegistryError),
    /// Wait until the load ends or the deadline passes, then ask again; where
    /// `start_load` is set, the load has to be started first.
    Wait { start_load: bool },
}

/// What an unload has to delete.
#[derive(Clone, Copy, Debug, PartialEq, Eq, Structural)]
pub enum Unload {
    /// There was no model.
    Nothing,
    /// A load is in flight; the model is deleted when it completes.
    Deferred,
    /// A failed record was dropped.
    Dropped,
    /// The predictor of this handle has to be deleted.
    Delete(u64),
}

/// What the end of a load brought about.
#[derive(Clone, Copy, Debug, PartialEq, Eq, Structural)]
pub enum LoadEnd {
    /// The new state is visible; waiting requests have to be woken.
    Published,
    /// An unload was requested: the slot is gone, waiting requests have to be
    /// woken, and the predictor, if there is one, has to be deleted.
    Unloaded(Option<u64>),
    /// The tag was no longer tracked.
    Untracked,
}

/// The slot of a load that starts.
pub open spec fn loading_slot(now: u64) -> Slot {
    Slot { state: ModelState::Loading { since: now }, unload_requested: false }
}

/// Whole seconds from one clock reading to another.
pub open spec fn seconds_between(from: u64, to: u64) -> u64 {
    if from <= to {
        ((to - from) as u64) / SECOND
    } else {
        0
    }
}

/// Seconds after which to retry: what is left of the expected load time, at
/// least five.
pub open spec fn retry_secs(expected: u64, since: u64, now: u64) -> u64 {
    let left = expected - seconds_between(since, now);
    if left < 5 {
        5
    } else {
        left as u64
    }
}

/// Whether a tag may be loaded: it is pinned, or nothing is.
pub open spec fn tag_served(pinned: Option<Set<Seq<char>>>, tag: Seq<char>) -> bool {
    match pinned {
        Some(set) => set.contains(tag),
        None => true,
    }
}

/// Whether warming a tag starts a load.
pub open spec fn warm_loads(
    slots: Map<Seq<char>, Slot>,
    pinned: Option<Set<Seq<char>>>,
    tag: Seq<char>,
) -> bool {
    tag_served(pinned, tag) && (slots.dom().contains(tag) ==> slots[tag].state is Failed)
}

/// Whether a tag's failure is too recent for reconciliation to retry.
pub open spec fn failed_recently(slots: Map<Seq<char>, Slot>, tag: Seq<char>, now: u64) -> bool {
    slots.dom().contains(tag) && (slots[tag].state matches ModelState::Failed { at, .. } && now - at
        < FAILED_RETRY_BACKOFF)
}

/// When a request that starts at a time gives up waiting.
pub open spec fn hold_until(now: u64) -> int {
    now + HOLD_THRESHOLD
}

/// Whether an answer is what a request for a tag gets at a time.
pub open spec fn is_poll(
    r: ReadyPoll,
    slots: Map<Seq<char>, Slot>,
    pinned: Option<Set<Seq<char>>>,
    expected: u64,
    tag: Seq<char>,
    now: u64,
    deadline: u128,
) -> bool {
    if !tag_served(pinned, tag) {
        r matches ReadyPoll::Refused(RegistryError::NotServed(t)) && t@ == tag
    } else if !slots.dom().contains(tag) {
        r == (ReadyPoll::Wait { start_load: true })
    } else {
        match slots[tag].state {
            ModelState::Ready(model) => r matches ReadyPoll::Ready(held) && held.handle
                == model.handle && held.plan@ == model.plan@ && held.plan.wf(),
            ModelState::Failed { error, .. } => r matches ReadyPoll::Refused(
                RegistryError::Failed(e),
            ) && e@ == error@,
            ModelState::Loading { since } => r == (if now >= deadline {
                ReadyPoll::Refused(
                    RegistryError::Loading { retry_after: retry_secs(expected, since, now) },
                )
            } else {
                ReadyPoll::Wait { start_load: false }
            }),
        }
    }
}

/// What a request for a tag whose wait timed out is told.
pub open spec fn timeout_of(
    slots: Map<Seq<char>, Slot>,
    expected: u64,
    tag: Seq<char>,
    now: u64,
) -> Option<RegistryError> {
    if slots.dom().contains(tag) && slots[tag].state is Loading {
        Some(
            RegistryError::Loading {
                retry_after: retry_secs(expected, slots[tag].state->since, now),
            },
        )
    } else {
        None
    }
}

/// What the unload of a tag has to delete.
pub open spec fn unload_of(slots: Map<Seq<char>, Slot>, tag: Seq<char>) -> Unload {
    if !slots.dom().contains(tag) {
        Unload::Nothing
    } else {
        match slots[tag].state {
            ModelState::Loading { .. } => Unload::Deferred,
            ModelState::Ready(model) => Unload::Delete(model.handle),
            ModelState::Failed { .. } => Unload::Dropped,
        }
    }
}

/// What the end of a load brings about.
pub open spec fn load_end(
    slots: Map<Seq<char>, Slot>,
    tag: Seq<char>,
    outcome: Result<Loaded, String>,
) -> LoadEnd {
    if !slots.dom().contains(tag) {
        LoadEnd::Untracked
    } else if slots[tag].unload_requested {
        LoadEnd::Unloaded(
            match outcome {
                Ok(loaded) => Some(loaded.handle),
                Err(_) => None,
            },
        )
    } else {
        LoadEnd::Published
    }
}

/// Seconds from one clock reading to another.
fn seconds_elapsed(from: u64, to: u64) -> (r: u64)
    ensures
        r == seconds_between(from, to),
{
    if from <= to {
        (to - from) / SECOND
    } else {
        0
    }
}

/// Model lifecycles by tag.
pub struct ModelRegistry {
    models: TagMap<Slot>,
    pinned: Option<NameSet>,
    last_load_secs: u64,
}

impl View for ModelRegistry {
    type V = Map<Seq<char>, Slot>;

    closed spec fn view(&self) -> Map<Seq<char>, Slot> {
        self.models@
    }
}

impl ModelRegistry {
    pub closed spec fn wf(&self) -> bool {
        &&& self.models.wf()
        &&& forall|tag: Seq<char>| #[trigger]
            self.models@.dom().contains(tag) ==> (self.models@[tag].state matches ModelState::Ready(
                model,
            ) ==> model.plan.wf() && model.stats.telemetry.wf())
    }

    /// The pinned tags.
    pub closed spec fn pinned_tags(&self) -> Option<Set<Seq<char>>> {
        match self.pinned {
            Some(set) => Some(set@),
            None => None,
        }
    }

    /// Duration of the last load in seconds.
    pub closed spec fn expected_secs(&self) -> u64 {
        self.last_load_secs
    }

    /// A registry without models. With a pinned set, no other tag is loaded.
    pub fn new(pinned: Option<NameSet>) -> (r: ModelRegistry)
        ensures
            r.wf(),
            r@ == Map::<Seq<char>, Slot>::empty(),
            r.pinned_tags() == (match pinned {
                Some(set) => Some(set@),
                None => None,
            }),
            r.expected_secs() == DEFAULT_LOAD_SECS,
    {
        ModelRegistry { models: TagMap::new(), pinned, last_load_secs: DEFAULT_LOAD_SECS }
    }

    /// Whether this server serves a tag.
    pub fn serves(&self, tag: &str) -> (r: bool)
        ensures
            r == tag_served(self.pinned_tags(), tag@),
    {
        match &self.pinned {
            Some(set) => set.contains(tag),
            None => true,
        }
    }

    /// Seconds after which to retry a model that has been loading since a time.
    pub fn retry_after(&self, since: u64, now: u64) -> (r: u64)
        ensures
            r == retry_secs(self.expected_secs(), since, now),
            r >= 5,
    {
        let left: u64 = self.last_load_secs.saturating_sub(seconds_elapsed(since, now));
        if left < 5 {
            5
        } else {
            left
        }
    }

    /// When a request that starts now gives up waiting.
    pub fn hold_deadline(now: u64) -> (r: u128)
        ensures
            r == hold_until(now),
    {
        now as u128 + HOLD_THRESHOLD
    }

    /// One step of getting a model's handle, warming it if necessary.
    ///
    /// The first request for a tag starts the load and the others wait for it.
    /// A failure is returned once and cleared, so that a later request retries.
    pub fn poll_ready(&mut self, tag: &str, now: u64, deadline: u128) -> (r: ReadyPoll)
        requires
            old(self).wf(),
        ensures
            final(self).wf(),
            final(self).pinned_tags() == old(self).pinned_tags(),
            final(self).expected_secs() == old(self).expected_secs(),
            is_poll(
                r,
                old(self)@,
                old(self).pinned_tags(),
                old(self).expected_secs(),
                tag@,
                now,
                deadline,
            ),
            final(self)@ == (if tag_served(old(self).pinned_tags(), tag@) {
                after_asked(old(self)@, tag@, now)
            } else {
                old(self)@
            }),
    {
        if !self.serves(tag) {
            return ReadyPoll::Refused(RegistryError::NotServed(tag.to_owned()));
        }
        let mut error: Option<String> = None;
        match self.models.get(tag) {
            Some(slot) => {
                match &slot.state {
                    ModelState::Ready(model) => {
                        return ReadyPoll::Ready(
                            ModelHandle { handle: model.handle, plan: model.plan.clone() },
                        );
                    },
                    ModelState::Failed { error: e, .. } => {
                        error = Some(e.clone());
                    },
                    ModelState::Loading { since } => {
                        if now as u128 >= deadline {
                            return ReadyPoll::Refused(
                                RegistryError::Loading { retry_after: self.retry_after(*since, now) },
                            );
                        }
                        return ReadyPoll::Wait { start_load: false };
                    },
                }
            },
            None => {},
        }
        match error {
            Some(e) => {
                let removed: Option<Slot> = self.models.remove(tag);
                ReadyPoll::Refused(RegistryError::Failed(e))
            },
            None => {
                let slot = Slot {
                    state: ModelState::Loading { since: now },
                    unload_requested: false,
                };
                let replaced: Option<Slot> = self.models.insert(tag, slot);
                ReadyPoll::Wait { start_load: true }
            },
        }
    }

    /// What a request whose wait timed out is told: to retry, if the model is
    /// still loading; otherwise it asks again.
    pub fn timed_out(&self, tag: &str, now: u64) -> (r: Option<RegistryError>)
        requires
            self.wf(),
        ensures
            r == timeout_of(self@, self.expected_secs(), tag@, now),
    {
        match self.models.get(tag) {
            Some(slot) => match &slot.state {
                ModelState::Loading { since } => Some(
                    RegistryError::Loading { retry_after: self.retry_after(*since, now) },
                ),
                _ => None,
            },
            None => None,
        }
    }

    /// Warms a model without waiting for it; returns whether a load starts. A
    /// model that is ready or loading is left alone, a stale failure is
    /// cleared, and a tag that is not served is ignored.
    pub fn warm(&mut self, tag: &str, now: u64) -> (r: bool)
        requires
            old(self).wf(),
        ensures
            final(self).wf(),
            final(self).pinned_tags() == old(self).pinned_tags(),
            final(self).expected_secs() == old(self).expected_secs(),
            r == warm_loads(old(self)@, old(self).pinned_tags(), tag@),
            final(self)@ == (if r {
                old(self)@.insert(tag@, loading_slot(now))
            } else {
                old(self)@
            }),
    {
        if !self.serves(tag) {
            return false;
        }
        let load: bool = match self.models.get(tag) {
            Some(slot) => match &slot.state {
                ModelState::Failed { .. } => true,
                _ => false,
            },
            None => true,
        };
        if load {
            let slot = Slot { state: ModelState::Loading { since: now }, unload_requested: false };
            let replaced: Option<Slot> = self.models.insert(tag, slot);
        }
        load
    }

    /// Warms a model on the reconciliation path: a recent failure is left to
    /// cool down, and stays visible meanwhile.
    pub fn warm_reconcile(&mut self, tag: &str, now: u64) -> (r: bool)
        requires
            old(self).wf(),
        ensures
            final(self).wf(),
            final(self).pinned_tags() == old(self).pinned_tags(),
            final(self).expected_secs() == old(self).expected_secs(),
            r == (warm_loads(old(self)@, old(self).pinned_tags(), tag@) && !failed_recently(
                old(self)@,
                tag@,
                now,
            )),
            final(self)@ == (if r {
                old(self)@.insert(tag@, loading_slot(now))
            } else {
                old(self)@
            }),
    {
        let cooling: bool = match self.models.get(tag) {
            Some(slot) => match &slot.state {
                ModelState::Failed { at, .. } => now <= *at || now - *at < FAILED_RETRY_BACKOFF,
                _ => false,
            },
            None => false,
        };
        if cooling {
            return false;
        }
        self.warm(tag, now)
    }

    /// Unloads a model. A model that is still loading is marked, and deleted
    /// when its load completes.
    pub fn unload(&mut self, tag: &str) -> (r: Unload)
        requires
            old(self).wf(),
        ensures
            final(self).wf(),
            final(self).pinned_tags() == old(self).pinned_tags(),
            final(self).expected_secs() == old(self).expected_secs(),
            r == unload_of(old(self)@, tag@),
            final(self)@ == after_unload(old(self)@, tag@),
    {
        match self.models.remove(tag) {
            None => {
                assert(old(self)@.remove(tag@) =~= old(self)@);
                Unload::Nothing
            },
            Some(slot) => match slot.state {
                ModelState::Loading { since } => {
                    let marked = Slot {
                        state: ModelState::Loading { since },
                        unload_requested: true,
                    };
                    let replaced: Option<Slot> = self.models.insert(tag, marked);
                    assert(self@ =~= old(self)@.insert(
                        tag@,
                        (Slot { unload_requested: true, ..old(self)@[tag@] }),
                    ));
                    Unload::Deferred
                },
                ModelState::Ready(model) => Unload::Delete(model.handle),
                ModelState::Failed { .. } => Unload::Dropped,
            },
        }
    }

    /// Ends a load: publishes its outcome, or, where an unload was requested
    /// meanwhile, drops the model without it ever having been ready.
    pub fn complete_load(
        &mut self,
        tag: &str,
        outcome: Result<Loaded, String>,
        started: u64,
        now: u64,
        memory: (Option<u64>, Option<u64>),
    ) -> (r: LoadEnd)
        requires
            old(self).wf(),
        ensures
            final(self).wf(),
            final(self).pinned_tags() == old(self).pinned_tags(),
            final(self).expected_secs() == (if outcome is Ok {
                load_secs(started, now)
            } else {
                old(self).expected_secs()
            }),
            r == load_end(old(self)@, tag@, outcome),
            exists|state: ModelState| #[trigger]
                is_outcome(state, outcome, now, memory) && final(self)@ == after_load(
                    old(self)@,
                    tag@,
                    state,
                ),
    {
        let ghost before = self@;
        let ghost given = outcome;
        let mut handle: Option<u64> = None;
        let state: ModelState = match outcome {
            Ok(loaded) => {
                let mut stats: ModelStats = ModelStats::new();
                match memory_growth(memory.0, memory.1) {
                    Some(mb) => stats.record_vram(mb),
                    None => {},
                }
                stats.record_download_time(loaded.download);
                stats.record_load_time(loaded.load);
                let secs: u64 = seconds_elapsed(started, now);
                self.last_load_secs = if secs < 1 {
                    1
                } else {
                    secs
                };
                handle = Some(loaded.handle);
                ModelState::Ready(
                    ReadyModel {
                        handle: loaded.handle,
                        loaded_at: now,
                        plan: BatchPlan::from_signature(&loaded.signature),
                        stats,
                    },
                )
            },
            Err(error) => ModelState::Failed { error, at: now },
        };
        assert(is_outcome(state, given, now, memory));
        match self.models.remove(tag) {
            None => {
                assert(before.remove(tag@) =~= before);
                LoadEnd::Untracked
            },
            Some(slot) => {
                if slot.unload_requested {
                    LoadEnd::Unloaded(handle)
                } else {
                    let published = Slot { state, unload_requested: false };
                    let replaced: Option<Slot> = self.models.insert(tag, published);
                    assert(self@ =~= before.insert(tag@, published));
                    LoadEnd::Published
                }
            },
        }
    }

    /// The slots by tag.
    pub fn slots(&self) -> (r: &TagMap<Slot>)
        requires
            self.wf(),
        ensures
            r.wf(),
            r@ == self@,
            forall|tag: Seq<char>| #[trigger]
                r@.dom().contains(tag) ==> (r@[tag].state matches ModelState::Ready(model)
                    ==> model.plan.wf() && model.stats.telemetry.wf()),
    {
        &self.models
    }

    /// The tags of ready models.
    pub fn ready_tags(&self) -> (r: Vec<String>)
        requires
            self.wf(),
        ensures
            forall|i: int|
                0 <= i < r@.len() ==> is_ready(self@, (#[trigger] r@[i])@),
            forall|i: int, j: int|
                0 <= i < j < r@.len() ==> (#[trigger] r@[i])@ != (#[trigger] r@[j])@,
            forall|tag: Seq<char>| #[trigger]
                is_ready(self@, tag) ==> exists|i: int| 0 <= i < r@.len() && (#[trigger] r@[i])@ == tag,
    {
        let mut out: Vec<String> = Vec::new();
        let mut i: usize = 0;
        proof {
            self.models.lemma_tags();
        }
        let ghost tags = self.models.tags();
        while i < self.models.len()
            invariant
                self.wf(),
                tags == self.models.tags(),
                tags.no_duplicates(),
                i <= tags.len(),
                forall|j: int|
                    0 <= j < out@.len() ==> is_ready(self@, (#[trigger] out@[j])@) && tags.take(
                        i as int,
                    ).contains(out@[j]@),
                forall|j: int, k: int|
                    0 <= j < k < out@.len() ==> (#[trigger] out@[j])@ != (#[trigger] out@[k])@,
                forall|j: int|
                    0 <= j < i && is_ready(self@, #[trigger] tags[j]) ==> exists|k: int|
                        0 <= k < out@.len() && (#[trigger] out@[k])@ == tags[j],
            decreases tags.len() - i,
        {
            let ghost before = out@;
            let ready: bool = match &self.models.value_at(i).state {
                ModelState::Ready(_) => true,
                _ => false,
            };
            if ready {
                out.push(self.models.tag_at(i).to_owned());
                assert(out@[before.len() as int]@ == tags[i as int]);
            }
            proof {
                let done = tags.take(i as int);
                let next = tags.take(i + 1);
                assert forall|t: Seq<char>| done.contains(t) implies next.contains(t) && t
                    != tags[i as int] by {
                    let k = choose|k: int| 0 <= k < done.len() && done[k] == t;
                    assert(next[k] == t);
                }
                assert(next[i as int] == tags[i as int]);
                assert forall|j: int|
                    0 <= j < i + 1 && is_ready(self@, #[trigger] tags[j]) implies exists|k: int|
                    0 <= k < out@.len() && (#[trigger] out@[k])@ == tags[j] by {
                    if j < i {
                        let k = choose|k: int| 0 <= k < before.len() && (#[trigger] before[k])@ == tags[j];
                        assert(out@[k]@ == tags[j]);
                    }
                }
            }
            i = i + 1;
        }
        proof {
            assert forall|tag: Seq<char>| #[trigger] is_ready(self@, tag) implies exists|i: int|
                0 <= i < out@.len() && (#[trigger] out@[i])@ == tag by {
                assert(tags.to_set().contains(tag));
                let j = choose|j: int| 0 <= j < tags.len() && tags[j] == tag;
                assert(is_ready(self@, tags[j]));
            }
        }
        out
    }

    /// The model of a tag, if it is ready. Never starts a load.
    pub fn ready(&self, tag: &str) -> (r: Option<&ReadyModel>)
        requires
            self.wf(),
        ensures
            r == (if is_ready(self@, tag@) {
                Some(&self@[tag@].state->Ready_0)
            } else {
                None
            }),
    {
        match self.models.get(tag) {
            Some(slot) => match &slot.state {
                ModelState::Ready(model) => Some(model),
                _ => None,
            },
            None => None,
        }
    }

    /// Counts an event of a ready model's predictions. An event of a model that
    /// has been unloaded meanwhile is dropped.
    pub fn count(&mut self, tag: &str, handle: u64, event: StatsEvent)
        requires
            old(self).wf(),
        ensures
            final(self).wf(),
            final(self).pinned_tags() == old(self).pinned_tags(),
            final(self).expected_secs() == old(self).expected_secs(),
            is_recorded(final(self)@, old(self)@, tag@, handle, event),
    {
        let ghost before = self@;
        let matching: bool = match self.ready(tag) {
            Some(model) => model.handle == handle,
            None => false,
        };
        if !matching {
            return;
        }
        match self.models.remove(tag) {
            Some(slot) => {
                match slot.state {
                    ModelState::Ready(model) => {
                        let ghost held = model;
                        let mut stats: ModelStats = model.stats;
                        match event {
                            StatsEvent::Latency(elapsed) => stats.record_latency(elapsed),
                            StatsEvent::Sample(sample) => stats.telemetry.record(sample),
                            StatsEvent::Enqueued => stats.enqueue(),
                            StatsEvent::Dequeued => stats.dequeue(),
                        }
                        let counted = Slot {
                            state: ModelState::Ready(
                                ReadyModel {
                                    handle: model.handle,
                                    loaded_at: model.loaded_at,
                                    plan: model.plan,
                                    stats,
                                },
                            ),
                            unload_requested: slot.unload_requested,
                        };
                        let replaced: Option<Slot> = self.models.insert(tag, counted);
                        proof {
                            assert(is_counted(stats, held.stats, event));
                            assert(counted == with_stats(before[tag@], stats));
                            assert(self@ =~= before.insert(tag@, counted));
                        }
                    },
                    _ => {
                        assert(false);
                    },
                }
            },
            None => {
                assert(false);
            },
        }
    }

    /// Ends the queueing of a request that was counted as waiting before it was
    /// sent. Where the model's queue is closed the request fails, and no longer
    /// counts as waiting.
    pub fn finish_enqueue(&mut self, tag: &str, handle: u64, sent: bool) -> (r: Result<
        (),
        PredictError,
    >)
        requires
            old(self).wf(),
        ensures
            final(self).wf(),
            final(self).pinned_tags() == old(self).pinned_tags(),
            final(self).expected_secs() == old(self).expected_secs(),
            r is Ok <==> sent,
            r matches Err(e) ==> is_queue_closed(e),
            if sent {
                final(self)@ == old(self)@
            } else {
                is_recorded(final(self)@, old(self)@, tag@, handle, StatsEvent::Dequeued)
            },
    {
        if sent {
            Ok(())
        } else {
            self.count(tag, handle, StatsEvent::Dequeued);
            Err(PredictError::Native("model dispatch queue closed".to_owned()))
        }
    }
}

/// Whether an error is that of a dispatch queue that was closed.
pub open spec fn is_queue_closed(e: PredictError) -> bool {
    e matches PredictError::Native(m) && m@ == "model dispatch queue closed"@
}

/// A request that could not be queued leaves every model as it was, the depth of
/// the queue among it: the count that was taken before it was sent is taken back.
pub proof fn law_failed_send_changes_nothing(
    slots: Map<Seq<char>, Slot>,
    tag: Seq<char>,
    enqueued: ModelStats,
    after: ModelStats,
)
    requires
        is_ready(slots, tag),
        is_counted(enqueued, slots[tag].state->Ready_0.stats, StatsEvent::Enqueued),
        is_counted(after, enqueued, StatsEvent::Dequeued),
    ensures
        after.queue_depth == slots[tag].state->Ready_0.stats.queue_depth,
        slots.insert(tag, with_stats(slots[tag], enqueued)).insert(
            tag,
            with_stats(with_stats(slots[tag], enqueued), after),
        ) == slots,
{
    assert(with_stats(with_stats(slots[tag], enqueued), after) == slots[tag]);
    assert(slots.insert(tag, with_stats(slots[tag], enqueued)).insert(
        tag,
        with_stats(with_stats(slots[tag], enqueued), after),
    ) =~= slots);
}

/// Something to count of a model's predictions.
#[derive(Clone, Copy, Debug)]
pub enum StatsEvent {
    /// A prediction completed, with its latency.
    Latency(u128),
    /// A prediction completed, with its timings.
    Sample(PredictionSample),
    /// A request entered the dispatch queue.
    Enqueued,
    /// A request left the dispatch queue.
    Dequeued,
}

/// Whether counters are others after an event.
pub open spec fn is_counted(after: ModelStats, before: ModelStats, event: StatsEvent) -> bool {
    match event {
        StatsEvent::Latency(elapsed) => after == (ModelStats {
            latency_sum_us: stats::wrapped_sum(before.latency_sum_us, (elapsed / 1000) as u64),
            latency_count: stats::counted(before.latency_count),
            total_predictions: stats::counted(before.total_predictions),
            ..before
        }),
        StatsEvent::Sample(sample) => {
            &&& after.telemetry.wf()
            &&& after.telemetry@ == stats::recorded(before.telemetry@, sample)
            &&& after == (ModelStats { telemetry: after.telemetry, ..before })
        },
        StatsEvent::Enqueued => after == (ModelStats {
            queue_depth: if before.queue_depth == u32::MAX {
                0
            } else {
                (before.queue_depth + 1) as u32
            },
            ..before
        }),
        StatsEvent::Dequeued => after == (ModelStats {
            queue_depth: if before.queue_depth == 0 {
                u32::MAX
            } else {
                (before.queue_depth - 1) as u32
            },
            ..before
        }),
    }
}

/// Whether slots are others after an event of a ready model was counted. An event of a
/// model that is no longer there, or was loaded anew, is dropped.
pub open spec fn is_recorded(
    after: Map<Seq<char>, Slot>,
    before: Map<Seq<char>, Slot>,
    tag: Seq<char>,
    handle: u64,
    event: StatsEvent,
) -> bool {
    if is_ready(before, tag) && before[tag].state->Ready_0.handle == handle {
        exists|stats: ModelStats| #[trigger]
            is_counted(stats, before[tag].state->Ready_0.stats, event) && after == before.insert(
                tag,
                with_stats(before[tag], stats),
            )
    } else {
        after == before
    }
}

/// A ready slot with other counters.
pub open spec fn with_stats(slot: Slot, stats: ModelStats) -> Slot {
    Slot { state: ModelState::Ready(ReadyModel { stats, ..slot.state->Ready_0 }), ..slot }
}

/// Whether a tag's model is ready.
pub open spec fn is_ready(slots: Map<Seq<char>, Slot>, tag: Seq<char>) -> bool {
    slots.dom().contains(tag) && slots[tag].state is Ready
}

/// The duration of a load in seconds, at least one.
pub open spec fn load_secs(started: u64, now: u64) -> u64 {
    if seconds_between(started, now) < 1 {
        1
    } else {
        seconds_between(started, now)
    }
}

/// How much memory grew, if it was measured and did.
pub open spec fn growth(before: Option<u64>, after: Option<u64>) -> Option<u64> {
    match (before, after) {
        (Some(b), Some(a)) => if a > b {
            Some((a - b) as u64)
        } else {
            None
        },
        _ => None,
    }
}

/// How much memory grew over a load.
pub fn memory_growth(before: Option<u64>, after: Option<u64>) -> (r: Option<u64>)
    ensures
        r == growth(before, after),
{
    match (before, after) {
        (Some(b), Some(a)) => {
            if a > b {
                Some(a - b)
            } else {
                None
            }
        },
        _ => None,
    }
}

/// Whether a state is what the outcome of a load leads to.
pub open spec fn is_outcome(
    state: ModelState,
    outcome: Result<Loaded, String>,
    now: u64,
    memory: (Option<u64>, Option<u64>),
) -> bool {
    match outcome {
        Ok(loaded) => state matches ModelState::Ready(model) && {
            &&& model.handle == loaded.handle
            &&& model.loaded_at == now
            &&& batch::is_plan_of(model.plan, loaded.signature.inputs@)
            &&& model.stats.load_time_us == (loaded.load / 1000) as u64
            &&& model.stats.download_time_ns == loaded.download as u64
            &&& model.stats.memory_mb == (match growth(memory.0, memory.1) {
                Some(mb) => mb,
                None => 0,
            })
            &&& model.stats.total_predictions == 0
            &&& model.stats.queue_depth == 0
            &&& model.stats.latency_sum_us == 0
            &&& model.stats.latency_count == 0
            &&& model.stats.telemetry@ == Seq::<PredictionSample>::empty()
        },
        Err(error) => state == (ModelState::Failed { error, at: now }),
    }
}

/// The slots after a request asked for a tag that this server serves, as far as
/// it changes them: a load starts where there is no slot.
pub open spec fn after_asked(
    slots: Map<Seq<char>, Slot>,
    tag: Seq<char>,
    now: u64,
) -> Map<Seq<char>, Slot> {
    if !slots.dom().contains(tag) {
        slots.insert(tag, loading_slot(now))
    } else if slots[tag].state is Failed {
        slots.remove(tag)
    } else {
        slots
    }
}

/// The slots after a tag was unloaded: a loading one is marked.
pub open spec fn after_unload(slots: Map<Seq<char>, Slot>, tag: Seq<char>) -> Map<Seq<char>, Slot> {
    if !slots.dom().contains(tag) {
        slots
    } else if slots[tag].state is Loading {
        slots.insert(tag, Slot { unload_requested: true, ..slots[tag] })
    } else {
        slots.remove(tag)
    }
}

/// The slots after a load ended in a state: it is published, unless an unload
/// was requested meanwhile.
pub open spec fn after_load(
    slots: Map<Seq<char>, Slot>,
    tag: Seq<char>,
    state: ModelState,
) -> Map<Seq<char>, Slot> {
    if !slots.dom().contains(tag) {
        slots
    } else if slots[tag].unload_requested {
        slots.remove(tag)
    } else {
        slots.insert(tag, Slot { state, unload_requested: false })
    }
}

/// A model that is unloaded while it loads is never ready afterwards, whatever
/// the load yields and whoever asks for it meanwhile: its slot goes.
pub proof fn law_unload_during_load_discards(
    slots: Map<Seq<char>, Slot>,
    tag: Seq<char>,
    now: u64,
    state: ModelState,
)
    requires
        slots.dom().contains(tag),
        slots[tag].state is Loading,
    ensures
        after_asked(after_unload(slots, tag), tag, now) == after_unload(slots, tag),
        after_load(after_unload(slots, tag), tag, state) == slots.remove(tag),
        !is_ready(after_load(after_unload(slots, tag), tag, state), tag),
{
    assert(after_load(after_unload(slots, tag), tag, state) =~= slots.remove(tag));
}

/// Unloading is idempotent.
pub proof fn law_unload_is_idempotent(slots: Map<Seq<char>, Slot>, tag: Seq<char>)
    ensures
        after_unload(after_unload(slots, tag), tag) == after_unload(slots, tag),
{
    assert(after_unload(after_unload(slots, tag), tag) =~= after_unload(slots, tag));
}

/// Loads are single-flight: after the first request, any number of further
/// requests and warm directives find the load in progress and start none.
pub proof fn law_single_flight(
    slots: Map<Seq<char>, Slot>,
    pinned: Option<Set<Seq<char>>>,
    tag: Seq<char>,
    now: u64,
    later: u64,
)
    requires
        !slots.dom().contains(tag),
    ensures
        after_asked(after_asked(slots, tag, now), tag, later) == after_asked(slots, tag, now),
        !warm_loads(after_asked(slots, tag, now), pinned, tag),
        after_asked(slots, tag, now)[tag] == loading_slot(now),
{
}

/// A failure is returned once: the request that sees it clears it, and the next
/// one starts a new load.
pub proof fn law_failure_is_cleared(
    slots: Map<Seq<char>, Slot>,
    tag: Seq<char>,
    now: u64,
    later: u64,
)
    requires
        slots.dom().contains(tag),
        slots[tag].state is Failed,
    ensures
        !after_asked(slots, tag, now).dom().contains(tag),
        after_asked(after_asked(slots, tag, now), tag, later)[tag] == loading_slot(later),
{
}

/// Warming is idempotent: once a load has started, warming again starts none.
pub proof fn law_warm_is_idempotent(
    slots: Map<Seq<char>, Slot>,
    pinned: Option<Set<Seq<char>>>,
    tag: Seq<char>,
    now: u64,
)
    ensures
        !warm_loads(slots.insert(tag, loading_slot(now)), pinned, tag),
        slots.dom().contains(tag) && slots[tag].state is Ready ==> !warm_loads(slots, pinned, tag),
{
}

/// With a pinned set, no other tag is ever loaded.
pub proof fn law_unpinned_tags_never_load(
    slots: Map<Seq<char>, Slot>,
    pinned: Set<Seq<char>>,
    tag: Seq<char>,
)
    requires
        !pinned.contains(tag),
    ensures
        !tag_served(Some(pinned), tag),
        !warm_loads(slots, Some(pinned), tag),
{
}

/// The time to retry after is what is left of the expected load time, in whole
/// seconds that have passed, and never less than five.
pub proof fn law_retry_is_what_is_left(expected: u64, since: u64, now: u64, passed: int)
    requires
        since <= now,
        passed * 1_000_000_000 <= now - since < (passed + 1) * 1_000_000_000,
    ensures
        retry_secs(expected, since, now) >= 5,
        retry_secs(expected, since, now) >= expected - passed,
        retry_secs(expected, since, now) == 5 || retry_secs(expected, since, now) + passed
            == expected,
        now < since + 1_000_000_000 && expected >= 5 ==> retry_secs(expected, since, now)
            == expected,
{
    assert(((now - since) as u64) / SECOND == passed);
}

/// The expected time of the next load is that of the last one in whole seconds,
/// and never less than one.
pub proof fn law_load_time_is_whole_seconds(started: u64, now: u64)
    requires
        started <= now,
    ensures
        load_secs(started, now) >= 1,
        now - started < (load_secs(started, now) + 1) * 1_000_000_000,
        now - started >= 1_000_000_000 ==> load_secs(started, now) * 1_000_000_000 <= now - started,
{
}

/// A request gets a model exactly where it is ready, and that model. It waits
/// exactly where the model is loading and its time is not up, or where nothing is
/// known of the model, and then it starts the load. Otherwise it is refused: a tag
/// that is not served, a failure, with its message, or a load that takes too long.
pub proof fn law_polls_follow_the_state(
    r: ReadyPoll,
    slots: Map<Seq<char>, Slot>,
    pinned: Option<Set<Seq<char>>>,
    expected: u64,
    tag: Seq<char>,
    now: u64,
    deadline: u128,
)
    requires
        is_poll(r, slots, pinned, expected, tag, now, deadline),
    ensures
        ({
            let served = pinned is None || pinned->0.contains(tag);
            let known = slots.dom().contains(tag);
            &&& r is Ready <==> served && known && slots[tag].state is Ready
            &&& r matches ReadyPoll::Ready(held) ==> held.handle
                == slots[tag].state->Ready_0.handle && held.plan@ == slots[tag].state->Ready_0.plan@
            &&& r is Wait <==> served && (known ==> slots[tag].state is Loading && now < deadline)
            &&& r matches ReadyPoll::Wait { start_load } ==> start_load == !known
            &&& r matches ReadyPoll::Refused(RegistryError::NotServed(t)) ==> !served && t@ == tag
            &&& !served ==> (r matches ReadyPoll::Refused(RegistryError::NotServed(_)))
            &&& r matches ReadyPoll::Refused(RegistryError::Failed(e)) ==> served && known && (
            slots[tag].state matches ModelState::Failed { error, .. } && e@ == error@)
            &&& r matches ReadyPoll::Refused(RegistryError::Loading { retry_after }) ==> served
                && known && slots[tag].state is Loading && deadline <= now && retry_after >= 5
        }),
{
}

/// Asking for a tag changes nothing of other tags, and nothing of a model that is
/// ready or loading. Asking for a model that nothing is known of starts its load at
/// that time.
pub proof fn law_asking_touches_one_tag(slots: Map<Seq<char>, Slot>, tag: Seq<char>, now: u64)
    ensures
        ({
            let next = after_asked(slots, tag, now);
            &&& next.remove(tag) == slots.remove(tag)
            &&& slots.dom().contains(tag) && !(slots[tag].state is Failed) ==> next == slots
            &&& slots.dom().contains(tag) && slots[tag].state is Failed
                ==> !next.dom().contains(tag)
            &&& !slots.dom().contains(tag) ==> next.dom().contains(tag) && next[tag].state == (
            ModelState::Loading { since: now }) && !next[tag].unload_requested
        }),
{
    assert(after_asked(slots, tag, now).remove(tag) =~= slots.remove(tag));
}

/// Unloading touches one tag. Afterwards no engine of it is ready; what was ready
/// has its own predictor deleted, a failure is dropped, and a load goes on, marked
/// to be discarded.
pub proof fn law_unload_leaves_nothing_ready(slots: Map<Seq<char>, Slot>, tag: Seq<char>)
    ensures
        ({
            let next = after_unload(slots, tag);
            &&& next.remove(tag) == slots.remove(tag)
            &&& next.dom().contains(tag) <==> slots.dom().contains(tag) && slots[tag].state is Loading
            &&& next.dom().contains(tag) ==> next[tag].unload_requested && next[tag].state
                == slots[tag].state
            &&& unload_of(slots, tag) is Delete <==> slots.dom().contains(tag) && slots[tag].state
                is Ready
            &&& unload_of(slots, tag) matches Unload::Delete(handle) ==> handle
                == slots[tag].state->Ready_0.handle
            &&& unload_of(slots, tag) is Nothing <==> !slots.dom().contains(tag)
            &&& unload_of(slots, tag) is Deferred <==> next.dom().contains(tag)
            &&& unload_of(slots, tag) is Dropped <==> slots.dom().contains(tag) && slots[tag].state
                is Failed
        }),
{
    assert(after_unload(slots, tag).remove(tag) =~= slots.remove(tag));
}

/// The end of a load touches one tag. Its outcome is published where nobody asked
/// for the model to go; where somebody did, the model goes, and the predictor that
/// was loaded, if any, is the one to delete. A tag that is not tracked stays so.
pub proof fn law_loads_end_once(
    slots: Map<Seq<char>, Slot>,
    tag: Seq<char>,
    outcome: Result<Loaded, String>,
    state: ModelState,
)
    ensures
        ({
            let next = after_load(slots, tag, state);
            let end = load_end(slots, tag, outcome);
            &&& next.remove(tag) == slots.remove(tag)
            &&& end is Published <==> slots.dom().contains(tag) && !slots[tag].unload_requested
            &&& end is Untracked <==> !slots.dom().contains(tag)
            &&& end is Published ==> next.dom().contains(tag) && next[tag].state == state
                && !next[tag].unload_requested
            &&& !(end is Published) ==> !next.dom().contains(tag)
            &&& end matches LoadEnd::Unloaded(handle) ==> (match outcome {
                Ok(loaded) => handle == Some(loaded.handle),
                Err(_) => handle is None,
            })
        }),
{
    assert(after_load(slots, tag, state).remove(tag) =~= slots.remove(tag));
}

/// A load that succeeds leads to a ready model with its handle, the time at which it
/// ended, its times in microseconds and nanoseconds and the memory by which it grew;
/// nothing has been predicted yet. One that fails leads to its error at that time.
pub proof fn law_outcomes_are_measured(
    state: ModelState,
    outcome: Result<Loaded, String>,
    now: u64,
    memory: (Option<u64>, Option<u64>),
)
    requires
        is_outcome(state, outcome, now, memory),
    ensures
        state is Ready <==> outcome is Ok,
        !(state is Loading),
        outcome matches Err(e) ==> (state matches ModelState::Failed { error, at } && error == e
            && at == now),
        outcome matches Ok(loaded) ==> {
            let model = state->Ready_0;
            &&& model.handle == loaded.handle
            &&& model.loaded_at == now
            &&& loaded.load <= u64::MAX ==> model.stats.load_time_us * 1000 <= loaded.load < (
            model.stats.load_time_us + 1) * 1000
            &&& loaded.download <= u64::MAX ==> model.stats.download_time_ns == loaded.download
            &&& model.stats.memory_mb > 0 <==> memory.0 is Some && memory.1 is Some && memory.0->0
                < memory.1->0
            &&& model.stats.memory_mb > 0 ==> memory.0->0 + model.stats.memory_mb == memory.1->0
            &&& model.stats.total_predictions == 0
            &&& model.stats.queue_depth == 0
            &&& model.stats.latency_sum_us == 0
            &&& model.stats.latency_count == 0
            &&& model.stats.telemetry@.len() == 0
        },
{
}

/// Counting is exact: a latency adds itself in microseconds and one to both counts,
/// a sample joins the window as its last one, and requests that enter and leave the
/// queue change its depth by one. Nothing else changes, and all of it wraps around.
pub proof fn law_counts_are_exact(after: ModelStats, before: ModelStats, event: StatsEvent)
    requires
        is_counted(after, before, event),
    ensures
        after.load_time_us == before.load_time_us,
        after.download_time_ns == before.download_time_ns,
        after.memory_mb == before.memory_mb,
        event matches StatsEvent::Latency(elapsed) ==> {
            &&& after.latency_count == (before.latency_count + 1) % 0x1_0000_0000_0000_0000
            &&& after.total_predictions == (before.total_predictions + 1) % 0x1_0000_0000_0000_0000
            &&& elapsed <= u64::MAX ==> after.latency_sum_us == (before.latency_sum_us + elapsed
                / 1000) % 0x1_0000_0000_0000_0000
        },
        !(event is Latency) ==> after.latency_count == before.latency_count
            && after.total_predictions == before.total_predictions && after.latency_sum_us
            == before.latency_sum_us,
        event is Enqueued ==> after.queue_depth == (before.queue_depth + 1) % 0x1_0000_0000,
        event is Dequeued ==> after.queue_depth == (before.queue_depth - 1) % 0x1_0000_0000,
        !(event is Enqueued) && !(event is Dequeued) ==> after.queue_depth == before.queue_depth,
        event matches StatsEvent::Sample(sample) ==> after.telemetry@.len() > 0
            && after.telemetry@.last() == sample,
        !(event is Sample) ==> after.telemetry@ == before.telemetry@,
{
    if let StatsEvent::Latency(elapsed) = event {
        stats::law_counters_wrap(before.latency_sum_us, (elapsed / 1000) as u64);
        stats::law_counters_wrap(before.latency_count, 1);
        stats::law_counters_wrap(before.total_predictions, 1);
    }
}

/// Memory is a model's by how much it grew over the load: what was there before and
/// the growth make up what is there after. Without two measurements, or where it did
/// not grow, nothing is known.
pub proof fn law_growth_adds_up(before: Option<u64>, after: Option<u64>)
    ensures
        growth(before, after) matches Some(mb) ==> mb > 0 && before is Some && after is Some
            && before->0 + mb == after->0,
        growth(before, after) is None <==> before is None || after is None || after->0 <= before->0,
{
}

/// Warming a tag starts a load exactly where the tag is served and no engine of it is
/// ready or loading; on the reconciliation path a failure has to be a minute old.
pub proof fn law_warming_starts_what_is_missing(
    slots: Map<Seq<char>, Slot>,
    pinned: Option<Set<Seq<char>>>,
    tag: Seq<char>,
    now: u64,
)
    ensures
        warm_loads(slots, pinned, tag) <==> (pinned is None || pinned->0.contains(tag)) && !(
        slots.dom().contains(tag) && (slots[tag].state is Ready || slots[tag].state is Loading)),
        failed_recently(slots, tag, now) <==> slots.dom().contains(tag) && (
        slots[tag].state matches ModelState::Failed { at, .. } && now < at + 60_000_000_000),
        loading_slot(now).state == (ModelState::Loading { since: now }),
        !loading_slot(now).unload_requested,
{
}

/// A request whose wait timed out is told to retry exactly where its model is still
/// loading, after what is left of the expected load time.
pub proof fn law_timeouts_tell_when_to_retry(
    slots: Map<Seq<char>, Slot>,
    expected: u64,
    tag: Seq<char>,
    now: u64,
)
    ensures
        timeout_of(slots, expected, tag, now) is Some <==> slots.dom().contains(tag)
            && slots[tag].state is Loading,
        timeout_of(slots, expected, tag, now) matches Some(e) ==> (
        e matches RegistryError::Loading { retry_after } && retry_after >= 5 && retry_after
            == retry_secs(expected, slots[tag].state->since, now)),
{
}

/// Counting an event touches only the counters of the model that it is of: other tags, the
/// handle, the plan and the time of the load stay. An event of a model that was unloaded,
/// or loaded anew under another handle, changes nothing.
pub proof fn law_events_count_for_their_model(
    after: Map<Seq<char>, Slot>,
    before: Map<Seq<char>, Slot>,
    tag: Seq<char>,
    handle: u64,
    event: StatsEvent,
)
    requires
        is_recorded(after, before, tag, handle, event),
    ensures
        ({
            let of_model = before.dom().contains(tag) && (
            before[tag].state matches ModelState::Ready(model) && model.handle == handle);
            &&& !of_model ==> after == before
            &&& of_model ==> {
                let old_model = before[tag].state->Ready_0;
                let new_model = after[tag].state->Ready_0;
                &&& after.remove(tag) == before.remove(tag)
                &&& after.dom().contains(tag) && after[tag].state is Ready
                &&& after[tag].unload_requested == before[tag].unload_requested
                &&& new_model.handle == old_model.handle
                &&& new_model.plan == old_model.plan
                &&& new_model.loaded_at == old_model.loaded_at
                &&& is_counted(new_model.stats, old_model.stats, event)
            }
        }),
{
    if is_ready(before, tag) && before[tag].state->Ready_0.handle == handle {
        assert(after.remove(tag) =~= before.remove(tag));
    }
}

/// A request waits for its model for ten seconds: until then it is not refused because the
/// model is loading, and from then on it is.
pub proof fn law_requests_wait_ten_seconds(
    r: ReadyPoll,
    slots: Map<Seq<char>, Slot>,
    pinned: Option<Set<Seq<char>>>,
    expected: u64,
    tag: Seq<char>,
    admitted: u64,
    now: u64,
)
    requires
        slots.dom().contains(tag),
        slots[tag].state is Loading,
        pinned is None || pinned->0.contains(tag),
        is_poll(r, slots, pinned, expected, tag, now, hold_until(admitted) as u128),
    ensures
        r is Wait <==> now < admitted + 10_000_000_000,
        r is Refused <==> now >= admitted + 10_000_000_000,
{
}

/// Without a pinned set every tag is served, and with one exactly its tags are.
pub proof fn law_pinned_tags_are_served(pinned: Option<Set<Seq<char>>>, tag: Seq<char>)
    ensures
        pinned is None ==> tag_served(pinned, tag),
        pinned matches Some(set) ==> (tag_served(pinned, tag) <==> set.contains(tag)),
{
}

} // verus!
