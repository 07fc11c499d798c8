//! Node-control protocol: goals that the control plane declares, and the actual
//! state that the node reports.

use crate::serving::batch::{BatchPlan, PlanView};
use crate::serving::cache::{CacheState, CacheTracker};
use crate::serving::registry::{ModelRegistry, ModelState, Slot};
use crate::tag_map::TagMap;
use crate::text;
use crate::text::{joined, same_text};
use vstd::prelude::*;

verus! {

/// Lifecycle state of a model on this node.
#[derive(Clone, Copy, Debug, PartialEq, Eq, Structural)]
pub enum ModelLifecycle {
    /// Resource download in progress.
    Caching,
    /// Resources complete on disk; no engine loaded.
    Cached,
    /// Engine load in progress.
    Loading,
    /// Engine loaded and serving.
    Ready,
    /// The last load or cache attempt failed.
    Failed,
}

impl ModelLifecycle {
    /// The wire spelling.
    pub fn slug(&self) -> (r: &'static str)
        ensures
            r@ == (match self {
                ModelLifecycle::Caching => "caching"@,
                ModelLifecycle::Cached => "cached"@,
                ModelLifecycle::Loading => "loading"@,
                ModelLifecycle::Ready => "ready"@,
                ModelLifecycle::Failed => "failed"@,
            }),
    {
        match self {
            ModelLifecycle::Caching => "caching",
            ModelLifecycle::Cached => "cached",
            ModelLifecycle::Loading => "loading",
            ModelLifecycle::Ready => "ready",
            ModelLifecycle::Failed => "failed",
        }
    }
}

/// How the node dispatches predictions for a loaded model.
#[derive(Clone, Copy, Debug, PartialEq, Eq, Structural)]
pub enum DispatchMode {
    Sequential,
    Buffered,
    Continuous,
}

/// The dispatch mode of a plan.
pub open spec fn mode_of(plan: PlanView) -> DispatchMode {
    match plan {
        PlanView::Sequential => DispatchMode::Sequential,
        PlanView::Buffered { .. } => DispatchMode::Buffered,
        PlanView::Continuous => DispatchMode::Continuous,
    }
}

impl DispatchMode {
    /// The dispatch mode of a plan.
    pub fn from_plan(plan: &BatchPlan) -> (r: DispatchMode)
        ensures
            r == mode_of(plan@),
    {
        match plan {
            BatchPlan::Sequential => DispatchMode::Sequential,
            BatchPlan::Buffered { .. } => DispatchMode::Buffered,
            BatchPlan::Continuous => DispatchMode::Continuous,
        }
    }

    /// The wire spelling.
    pub fn slug(&self) -> (r: &'static str)
        ensures
            r@ == (match self {
                DispatchMode::Sequential => "sequential"@,
                DispatchMode::Buffered => "buffered"@,
                DispatchMode::Continuous => "continuous"@,
            }),
    {
        match self {
            DispatchMode::Sequential => "sequential",
            DispatchMode::Buffered => "buffered",
            DispatchMode::Continuous => "continuous",
        }
    }
}

/// Reported state of one model.
#[derive(Debug)]
pub struct ModelStatus {
    pub tag: String,
    pub state: ModelLifecycle,
    /// Failure message, where the state is failed.
    pub error: Option<String>,
    /// Dispatch mode, where the state is ready.
    pub batch_mode: Option<DispatchMode>,
    /// Requests that wait in the dispatch queue.
    pub queue_depth: u32,
    pub total_predictions: u64,
    /// Sum of latencies in microseconds and how many they are, if any.
    pub latency_total: Option<(u64, u64)>,
    /// Load time in microseconds.
    pub load_time_us: u64,
    /// Estimated memory in megabytes, if measured.
    pub vram_mb: Option<u64>,
}

/// Whether a status is of a model that is not ready.
pub open spec fn is_empty_status(
    status: ModelStatus,
    tag: Seq<char>,
    state: ModelLifecycle,
    error: Option<String>,
) -> bool {
    &&& status.tag@ == tag
    &&& status.state == state
    &&& status.error == error
    &&& status.batch_mode is None
    &&& status.queue_depth == 0
    &&& status.total_predictions == 0
    &&& status.latency_total is None
    &&& status.load_time_us == 0
    &&& status.vram_mb is None
}

/// Whether a status is that of a slot.
pub open spec fn is_slot_status(status: ModelStatus, tag: Seq<char>, slot: Slot) -> bool {
    match slot.state {
        ModelState::Loading { .. } => is_empty_status(status, tag, ModelLifecycle::Loading, None),
        ModelState::Failed { error, .. } => is_empty_status(
            status,
            tag,
            ModelLifecycle::Failed,
            Some(error),
        ),
        ModelState::Ready(model) => {
            &&& status.tag@ == tag
            &&& status.state == ModelLifecycle::Ready
            &&& status.error is None
            &&& status.batch_mode == Some(mode_of(model.plan@))
            &&& status.queue_depth == model.stats.queue_depth
            &&& status.total_predictions == model.stats.total_predictions
            &&& status.latency_total == (if model.stats.latency_count == 0 {
                None
            } else {
                Some((model.stats.latency_sum_us, model.stats.latency_count))
            })
            &&& status.load_time_us == model.stats.load_time_us
            &&& status.vram_mb == (if model.stats.memory_mb > 0 {
                Some(model.stats.memory_mb)
            } else {
                None
            })
        },
    }
}

/// Whether a status is that of a tag on disk.
pub open spec fn is_cache_status(status: ModelStatus, tag: Seq<char>, state: CacheState) -> bool {
    match state {
        CacheState::Caching => is_empty_status(status, tag, ModelLifecycle::Caching, None),
        CacheState::Cached => is_empty_status(status, tag, ModelLifecycle::Cached, None),
        CacheState::Failed { error, .. } => is_empty_status(
            status,
            tag,
            ModelLifecycle::Failed,
            Some(error),
        ),
    }
}

/// Whether a status is that of a tag: the registry wins for tags that it knows,
/// because a loaded model is on disk as well.
pub open spec fn is_status_of(
    status: ModelStatus,
    slots: Map<Seq<char>, Slot>,
    states: Map<Seq<char>, CacheState>,
) -> bool {
    let tag = status.tag@;
    if slots.dom().contains(tag) {
        is_slot_status(status, tag, slots[tag])
    } else {
        states.dom().contains(tag) && is_cache_status(status, tag, states[tag])
    }
}

fn empty_status(tag: String, state: ModelLifecycle, error: Option<String>) -> (r: ModelStatus)
    ensures
        is_empty_status(r, tag@, state, error),
{
    ModelStatus {
        tag,
        state,
        error,
        batch_mode: None,
        queue_depth: 0,
        total_predictions: 0,
        latency_total: None,
        load_time_us: 0,
        vram_mb: None,
    }
}

fn slot_status(tag: String, slot: &Slot) -> (r: ModelStatus)
    ensures
        is_slot_status(r, tag@, *slot),
{
    match &slot.state {
        ModelState::Loading { .. } => empty_status(tag, ModelLifecycle::Loading, None),
        ModelState::Failed { error, .. } => empty_status(
            tag,
            ModelLifecycle::Failed,
            Some(error.clone()),
        ),
        ModelState::Ready(model) => ModelStatus {
            tag,
            state: ModelLifecycle::Ready,
            error: None,
            batch_mode: Some(DispatchMode::from_plan(&model.plan)),
            queue_depth: model.stats.queue_depth,
            total_predictions: model.stats.total_predictions,
            latency_total: model.stats.latency_total(),
            load_time_us: model.stats.load_time_us,
            vram_mb: model.stats.vram_mb(),
        },
    }
}

/// Whether a list has a status for a tag.
pub open spec fn reports(list: Seq<ModelStatus>, tag: Seq<char>) -> bool {
    exists|i: int| 0 <= i < list.len() && (#[trigger] list[i]).tag@ == tag
}

/// Merges the engine registry with the cache tracker: one status for every tag
/// that either knows.
pub fn collect_model_status(models: &ModelRegistry, cache: &CacheTracker) -> (r: Vec<ModelStatus>)
    requires
        models.wf(),
        cache.wf(),
    ensures
        forall|i: int| 0 <= i < r@.len() ==> is_status_of(#[trigger] r@[i], models@, cache@),
        forall|i: int, j: int|
            0 <= i < j < r@.len() ==> (#[trigger] r@[i]).tag@ != (#[trigger] r@[j]).tag@,
        forall|tag: Seq<char>| #[trigger]
            reports(r@, tag) <==> models@.dom().contains(tag) || cache@.dom().contains(tag),
{
    let slots: &TagMap<Slot> = models.slots();
    let mut out: Vec<ModelStatus> = Vec::new();
    let mut i: usize = 0;
    proof {
        slots.lemma_tags();
    }
    let ghost tags = slots.tags();
    while i < slots.len()
        invariant
            slots.wf(),
            slots@ == models@,
            tags == slots.tags(),
            tags.no_duplicates(),
            i <= tags.len(),
            out@.len() == i,
            forall|j: int|
                0 <= j < i ==> (#[trigger] out@[j]).tag@ == tags[j] && models@.dom().contains(
                    tags[j],
                ) && is_slot_status(out@[j], tags[j], models@[tags[j]]),
        decreases tags.len() - i,
    {
        let status: ModelStatus = slot_status(slots.tag_at(i).to_owned(), slots.value_at(i));
        out.push(status);
        i = i + 1;
    }
    let ghost known = out@;
    proof {
        assert forall|tag: Seq<char>| #[trigger] reports(known, tag) == models@.dom().contains(
            tag,
        ) by {
            if models@.dom().contains(tag) {
                assert(tags.to_set().contains(tag));
                let j = choose|j: int| 0 <= j < tags.len() && tags[j] == tag;
                assert(known[j].tag@ == tag);
            }
            if reports(known, tag) {
                let j = choose|j: int| 0 <= j < known.len() && (#[trigger] known[j]).tag@ == tag;
                assert(models@.dom().contains(tags[j]));
            }
        }
        assert forall|i: int, j: int| 0 <= i < j < out@.len() implies (#[trigger] out@[i]).tag@ != (
        #[trigger] out@[j]).tag@ by {
            assert(tags[i] != tags[j]);
        }
    }
    let cached: Vec<(String, CacheState)> = cache.snapshot();
    let mut k: usize = 0;
    while k < cached.len()
        invariant
            k <= cached@.len(),
            crate::serving::cache::lists_states(cached@, cache@),
            known.len() <= out@.len(),
            forall|j: int| 0 <= j < known.len() ==> #[trigger] out@[j] == known[j],
            forall|tag: Seq<char>| #[trigger]
                reports(known, tag) == models@.dom().contains(tag),
            forall|i: int|
                0 <= i < out@.len() ==> is_status_of(#[trigger] out@[i], models@, cache@),
            forall|i: int, j: int|
                0 <= i < j < out@.len() ==> (#[trigger] out@[i]).tag@ != (#[trigger] out@[j]).tag@,
            forall|i: int|
                known.len() <= i < out@.len() ==> exists|j: int|
                    0 <= j < k && (#[trigger] cached@[j]).0@ == (#[trigger] out@[i]).tag@,
            forall|j: int| 0 <= j < k ==> reports(out@, (#[trigger] cached@[j]).0@),
        decreases cached.len() - k,
    {
        let ghost before = out@;
        let tag: &str = cached[k].0.as_str();
        let mut listed: bool = false;
        let mut j: usize = 0;
        while j < out.len()
            invariant
                j <= out@.len(),
                listed == exists|m: int| 0 <= m < j && (#[trigger] out@[m]).tag@ == tag@,
            decreases out.len() - j,
        {
            if same_text(out[j].tag.as_str(), tag) {
                listed = true;
            }
            j = j + 1;
        }
        if !listed {
            proof {
                assert(!reports(out@, tag@));
                assert(!reports(known, tag@)) by {
                    if reports(known, tag@) {
                        let m = choose|m: int| 0 <= m < known.len() && (#[trigger] known[m]).tag@ == tag@;
                        assert(out@[m].tag@ == tag@);
                    }
                }
            }
            let status: ModelStatus = match &cached[k].1 {
                CacheState::Caching => empty_status(tag.to_owned(), ModelLifecycle::Caching, None),
                CacheState::Cached => empty_status(tag.to_owned(), ModelLifecycle::Cached, None),
                CacheState::Failed { error, .. } => empty_status(
                    tag.to_owned(),
                    ModelLifecycle::Failed,
                    Some(error.clone()),
                ),
            };
            out.push(status);
            assert(out@[before.len() as int].tag@ == tag@);
            assert(reports(out@, tag@));
        } else {
            assert(reports(out@, tag@));
        }
        proof {
            assert forall|m: int| 0 <= m < k + 1 implies reports(out@, (#[trigger] cached@[m]).0@) by {
                if m < k {
                    let n = choose|n: int|
                        0 <= n < before.len() && (#[trigger] before[n]).tag@ == cached@[m].0@;
                    assert(out@[n].tag@ == cached@[m].0@);
                }
            }
            assert forall|i: int| known.len() <= i < out@.len() implies exists|j: int|
                0 <= j < k + 1 && (#[trigger] cached@[j]).0@ == (#[trigger] out@[i]).tag@ by {
                if i < before.len() {
                    let m = choose|m: int|
                        0 <= m < k && (#[trigger] cached@[m]).0@ == before[i].tag@;
                    assert(cached@[m].0@ == out@[i].tag@);
                } else {
                    assert(cached@[k as int].0@ == out@[i].tag@);
                }
            }
        }
        k = k + 1;
    }
    proof {
        assert forall|tag: Seq<char>| #[trigger] reports(out@, tag) <==> models@.dom().contains(tag)
            || cache@.dom().contains(tag) by {
            if models@.dom().contains(tag) {
                assert(reports(known, tag));
                let m = choose|m: int| 0 <= m < known.len() && (#[trigger] known[m]).tag@ == tag;
                assert(out@[m].tag@ == tag);
            }
            if cache@.dom().contains(tag) {
                let m = choose|m: int| 0 <= m < cached@.len() && (#[trigger] cached@[m]).0@ == tag;
                assert(reports(out@, cached@[m].0@));
            }
            if reports(out@, tag) {
                let i = choose|i: int| 0 <= i < out@.len() && (#[trigger] out@[i]).tag@ == tag;
                assert(is_status_of(out@[i], models@, cache@));
            }
        }
    }
    out
}

/// Desired residency of a model.
#[derive(Clone, Copy, Debug, PartialEq, Eq, Structural)]
pub enum Residency {
    /// Engine loaded and serving; implies disk.
    Process,
    /// Resources complete on disk; no engine.
    Disk,
    /// No guarantee: engine unloaded.
    Unloaded,
}

/// Goal for one model.
#[derive(Debug)]
pub struct ModelDescriptor {
    pub tag: String,
    pub residency: Residency,
    /// Download credential.
    pub key: Option<String>,
}

/// The control plane's reply to a heartbeat. A tag that is absent keeps its
/// current state, and an empty reply changes nothing.
#[derive(Debug)]
pub struct HeartbeatResponse {
    pub models: Vec<ModelDescriptor>,
    /// Whether to stop accepting new inference requests; not to, where a reply
    /// with goals does not say.
    pub drain: Option<bool>,
}

impl Default for HeartbeatResponse {
    /// The empty reply, which also stands for one that cannot be read.
    fn default() -> (r: Self)
        ensures
            r.models@ == Seq::<ModelDescriptor>::empty(),
            r.drain is None,
    {
        HeartbeatResponse { models: Vec::new(), drain: None }
    }
}

/// A URL without the slashes at its end.
pub open spec fn without_slashes(url: Seq<char>) -> Seq<char>
    decreases url.len(),
{
    if url.len() > 0 && url.last() == '/' {
        without_slashes(url.drop_last())
    } else {
        url
    }
}

fn trim_slashes(url: &str) -> (r: &str)
    ensures
        r@ == without_slashes(url@),
{
    let letters: Vec<char> = text::chars_of(url);
    let mut n: usize = letters.len();
    assert(url@.take(n as int) =~= url@);
    while n > 0 && letters[n - 1] == '/'
        invariant
            n <= letters@.len(),
            letters@ == url@,
            without_slashes(url@.take(n as int)) == without_slashes(url@),
        decreases n,
    {
        assert(url@.take(n as int).drop_last() =~= url@.take(n - 1));
        n = n - 1;
    }
    assert(url@.subrange(0, n as int) =~= url@.take(n as int));
    url.substring_char(0, n)
}

/// The route that heartbeats are posted to.
pub fn heartbeat_url(control_plane_url: &str, node_id: &str) -> (r: String)
    ensures
        r@ == without_slashes(control_plane_url@) + "/v1/nodes/"@ + node_id@ + "/heartbeat"@,
{
    let mut out: String = joined(trim_slashes(control_plane_url), "/v1/nodes/");
    out.append(node_id);
    out.append("/heartbeat");
    out
}

/// The route that KV events are posted to.
pub fn ingest_url(control_plane_url: &str) -> (r: String)
    ensures
        r@ == without_slashes(control_plane_url@) + "/v1/kv/events"@,
{
    joined(trim_slashes(control_plane_url), "/v1/kv/events")
}

/// What is reported of a model is its state: a loading model is reported as such, a failure
/// with its error, and a ready model with its own counters, each under its own name. Only
/// a ready model has a dispatch mode, and only a failed one an error.
pub proof fn law_statuses_tell_the_state(status: ModelStatus, tag: Seq<char>, slot: Slot)
    requires
        is_slot_status(status, tag, slot),
    ensures
        status.tag@ == tag,
        status.state == ModelLifecycle::Loading <==> slot.state is Loading,
        status.state == ModelLifecycle::Failed <==> slot.state is Failed,
        status.state == ModelLifecycle::Ready <==> slot.state is Ready,
        slot.state matches ModelState::Failed { error, .. } ==> status.error == Some(error),
        !(slot.state is Failed) ==> status.error is None,
        status.batch_mode is Some <==> slot.state is Ready,
        slot.state matches ModelState::Ready(model) ==> {
            &&& status.queue_depth == model.stats.queue_depth
            &&& status.total_predictions == model.stats.total_predictions
            &&& status.load_time_us == model.stats.load_time_us
            &&& status.latency_total is Some <==> model.stats.latency_count > 0
            &&& status.latency_total matches Some((sum, count)) ==> sum
                == model.stats.latency_sum_us && count == model.stats.latency_count
            &&& status.vram_mb is Some <==> model.stats.memory_mb > 0
            &&& status.vram_mb matches Some(mb) ==> mb == model.stats.memory_mb
            &&& model.plan is Sequential <==> status.batch_mode == Some(DispatchMode::Sequential)
            &&& model.plan is Buffered <==> status.batch_mode == Some(DispatchMode::Buffered)
            &&& model.plan is Continuous <==> status.batch_mode == Some(DispatchMode::Continuous)
        },
        !(slot.state is Ready) ==> status.queue_depth == 0 && status.total_predictions == 0
            && status.load_time_us == 0 && status.latency_total is None && status.vram_mb is None,
{
}

/// What is reported of a tag on disk is its state there, and a failure with its error; it
/// has no counters.
pub proof fn law_disk_statuses_tell_the_state(
    status: ModelStatus,
    tag: Seq<char>,
    state: CacheState,
)
    requires
        is_cache_status(status, tag, state),
    ensures
        status.tag@ == tag,
        status.state == ModelLifecycle::Caching <==> state is Caching,
        status.state == ModelLifecycle::Cached <==> state is Cached,
        status.state == ModelLifecycle::Failed <==> state is Failed,
        state matches CacheState::Failed { error, .. } ==> status.error == Some(error),
        !(state is Failed) ==> status.error is None,
        status.batch_mode is None,
        status.queue_depth == 0,
        status.total_predictions == 0,
        status.load_time_us == 0,
        status.latency_total is None,
        status.vram_mb is None,
{
}

/// A tag that the registry knows is reported by its engine, whatever is on disk: it is never
/// reported as caching or cached. Any other tag is reported by its state on disk.
pub proof fn law_engines_are_reported_first(
    status: ModelStatus,
    slots: Map<Seq<char>, Slot>,
    states: Map<Seq<char>, CacheState>,
)
    requires
        is_status_of(status, slots, states),
    ensures
        slots.dom().contains(status.tag@) || states.dom().contains(status.tag@),
        slots.dom().contains(status.tag@) ==> status.state != ModelLifecycle::Caching
            && status.state != ModelLifecycle::Cached && is_slot_status(
            status,
            status.tag@,
            slots[status.tag@],
        ),
        !slots.dom().contains(status.tag@) ==> status.state != ModelLifecycle::Loading
            && status.state != ModelLifecycle::Ready && is_cache_status(
            status,
            status.tag@,
            states[status.tag@],
        ),
{
}

/// The slashes at the end of a URL, all of them and nothing else, are dropped.
pub proof fn law_only_final_slashes_are_dropped(url: Seq<char>)
    ensures
        ({
            let kept = without_slashes(url);
            &&& kept.len() <= url.len()
            &&& kept == url.take(kept.len() as int)
            &&& kept.len() > 0 ==> kept.last() != '/'
            &&& forall|i: int| kept.len() <= i < url.len() ==> #[trigger] url[i] == '/'
        }),
    decreases url.len(),
{
    if url.len() > 0 && url.last() == '/' {
        let before = url.drop_last();
        law_only_final_slashes_are_dropped(before);
        let kept = without_slashes(url);
        assert(kept =~= url.take(kept.len() as int));
        assert forall|i: int| kept.len() <= i < url.len() implies #[trigger] url[i] == '/' by {
            if i < before.len() {
                assert(before[i] == '/');
            }
        }
    } else {
        assert(url =~= url.take(url.len() as int));
    }
}

} // verus!
