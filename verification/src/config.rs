//! Start-up: what the command line's options mean.

use crate::inputs::NameSet;
use crate::serving::registry;
use crate::serving::registry::Slot;
use crate::state::AppState;
use vstd::prelude::*;

verus! {

/// Control-plane wiring of a fleet node.
#[derive(Debug)]
pub struct NodeContext {
    /// Node identity assigned by the control plane.
    pub node_id: String,
    /// Control plane base URL.
    pub control_plane_url: String,
    /// Seconds between heartbeats.
    pub heartbeat_interval: u64,
    /// Seconds over which the relay gathers events.
    pub kv_flush_interval: u64,
}

/// A number of seconds, at least one.
pub open spec fn at_least_one(seconds: u64) -> u64 {
    if seconds < 1 {
        1
    } else {
        seconds
    }
}

/// Whether a result is the control-plane wiring that options ask for.
pub open spec fn is_context(
    r: Result<Option<NodeContext>, String>,
    control_plane_url: Option<String>,
    node_id: Option<String>,
    heartbeat_interval: u64,
    kv_flush_interval: u64,
) -> bool {
    match (control_plane_url, node_id) {
        (Some(url), Some(id)) => r == Ok::<Option<NodeContext>, String>(
            Some(
                NodeContext {
                    node_id: id,
                    control_plane_url: url,
                    heartbeat_interval: at_least_one(heartbeat_interval),
                    kv_flush_interval: at_least_one(kv_flush_interval),
                },
            ),
        ),
        (Some(_), None) => r matches Err(e) && e@ == "--control-plane-url requires --node-id"@,
        (None, _) => r == Ok::<Option<NodeContext>, String>(None),
    }
}

/// The control-plane wiring, if there is one. A control plane without a node
/// identity is refused; an identity alone is ignored.
pub fn node_context(
    control_plane_url: Option<String>,
    node_id: Option<String>,
    heartbeat_interval: u64,
    kv_flush_interval: u64,
) -> (r: Result<Option<NodeContext>, String>)
    ensures
        is_context(r, control_plane_url, node_id, heartbeat_interval, kv_flush_interval),
{
    match control_plane_url {
        Some(url) => match node_id {
            Some(id) => Ok(
                Some(
                    NodeContext {
                        node_id: id,
                        control_plane_url: url,
                        heartbeat_interval: if heartbeat_interval < 1 {
                            1
                        } else {
                            heartbeat_interval
                        },
                        kv_flush_interval: if kv_flush_interval < 1 {
                            1
                        } else {
                            kv_flush_interval
                        },
                    },
                ),
            ),
            None => Err("--control-plane-url requires --node-id".to_owned()),
        },
        None => Ok(None),
    }
}

/// The tags that a list holds.
pub open spec fn tag_set(models: Seq<String>) -> Set<Seq<char>>
    decreases models.len(),
{
    if models.len() == 0 {
        Set::empty()
    } else {
        tag_set(models.drop_last()).insert(models.last()@)
    }
}

/// The pinned set of a list of tags. Without tags nothing is pinned, and every
/// tag is loaded on demand.
pub fn pinned_models(models: &Vec<String>) -> (r: Option<NameSet>)
    ensures
        match r {
            Some(set) => models@.len() > 0 && set.wf() && set@ == tag_set(models@),
            None => models@.len() == 0,
        },
{
    if models.len() == 0 {
        return None;
    }
    let mut set: NameSet = NameSet::new();
    let mut i: usize = 0;
    while i < models.len()
        invariant
            i <= models@.len(),
            set.wf(),
            set@ == tag_set(models@.take(i as int)),
        decreases models.len() - i,
    {
        assert(models@.take(i + 1).drop_last() =~= models@.take(i as int));
        set.insert(models[i].as_str());
        i = i + 1;
    }
    assert(models@.take(i as int) =~= models@);
    Some(set)
}

/// The slots after tags were warmed one by one.
pub open spec fn warmed(
    slots: Map<Seq<char>, Slot>,
    pinned: Option<Set<Seq<char>>>,
    models: Seq<String>,
    now: u64,
) -> Map<Seq<char>, Slot>
    decreases models.len(),
{
    if models.len() == 0 {
        slots
    } else {
        let before = warmed(slots, pinned, models.drop_last(), now);
        if registry::warm_loads(before, pinned, models.last()@) {
            before.insert(models.last()@, registry::loading_slot(now))
        } else {
            before
        }
    }
}

/// The tags whose loads start when tags are warmed one by one.
pub open spec fn started(
    slots: Map<Seq<char>, Slot>,
    pinned: Option<Set<Seq<char>>>,
    models: Seq<String>,
    now: u64,
) -> Seq<Seq<char>>
    decreases models.len(),
{
    if models.len() == 0 {
        seq![]
    } else {
        let before = started(slots, pinned, models.drop_last(), now);
        if registry::warm_loads(
            warmed(slots, pinned, models.drop_last(), now),
            pinned,
            models.last()@,
        ) {
            before.push(models.last()@)
        } else {
            before
        }
    }
}

/// The views of a list of tags.
pub open spec fn tags_view(tags: Seq<String>) -> Seq<Seq<char>> {
    tags.map_values(|t: String| t@)
}

/// Warms the pinned models at start; returns the tags whose loads have to be
/// started, each registered at the download gate.
pub fn eager_loads(state: &mut AppState, models: &Vec<String>, now: u64) -> (r: Vec<String>)
    requires
        old(state).wf(),
        old(state).gate@ + models@.len() <= usize::MAX,
    ensures
        final(state).wf(),
        final(state).registry@ == warmed(
            old(state).registry@,
            old(state).registry.pinned_tags(),
            models@,
            now,
        ),
        tags_view(r@) == started(
            old(state).registry@,
            old(state).registry.pinned_tags(),
            models@,
            now,
        ),
        final(state).gate@ == old(state).gate@ + r@.len(),
        final(state).registry.pinned_tags() == old(state).registry.pinned_tags(),
        final(state).registry.expected_secs() == old(state).registry.expected_secs(),
        final(state).cache == old(state).cache,
        final(state).dispatcher == old(state).dispatcher,
        final(state).keys == old(state).keys,
        final(state).checkins == old(state).checkins,
        final(state).draining == old(state).draining,
{
    let ghost given = *state;
    let ghost pinned = state.registry.pinned_tags();
    let mut out: Vec<String> = Vec::new();
    let mut i: usize = 0;
    assert(tags_view(out@) =~= Seq::<Seq<char>>::empty());
    while i < models.len()
        invariant
            i <= models@.len(),
            state.wf(),
            given.gate@ + models@.len() <= usize::MAX,
            pinned == given.registry.pinned_tags(),
            state.registry@ == warmed(given.registry@, pinned, models@.take(i as int), now),
            tags_view(out@) == started(given.registry@, pinned, models@.take(i as int), now),
            state.gate@ == given.gate@ + out@.len(),
            out@.len() <= i,
            state.registry.pinned_tags() == pinned,
            state.registry.expected_secs() == given.registry.expected_secs(),
            state.cache == given.cache,
            state.dispatcher == given.dispatcher,
            state.keys == given.keys,
            state.checkins == given.checkins,
            state.draining == given.draining,
        decreases models.len() - i,
    {
        assert(models@.take(i + 1).drop_last() =~= models@.take(i as int));
        let ghost before = out@;
        if state.registry.warm(models[i].as_str(), now) {
            state.gate.enter_priority();
            out.push(models[i].clone());
            assert(tags_view(out@) =~= tags_view(before).push(models@[i as int]@));
        }
        i = i + 1;
    }
    assert(models@.take(i as int) =~= models@);
    out
}

/// At start every pinned model, and no other, is loading, and its load is
/// started once however often the list names it.
pub proof fn law_pinned_models_load_once(models: Seq<String>, now: u64)
    ensures
        ({
            let slots = warmed(Map::empty(), Some(tag_set(models)), models, now);
            let loads = started(Map::empty(), Some(tag_set(models)), models, now);
            &&& slots.dom() == tag_set(models)
            &&& forall|tag: Seq<char>| #[trigger]
                slots.dom().contains(tag) ==> slots[tag] == registry::loading_slot(now)
            &&& loads.no_duplicates()
            &&& loads.to_set() == tag_set(models)
        }),
{
    lemma_warmed(tag_set(models), models, now);
}

proof fn lemma_warmed(pinned: Set<Seq<char>>, models: Seq<String>, now: u64)
    requires
        tag_set(models).subset_of(pinned),
    ensures
        ({
            let slots = warmed(Map::empty(), Some(pinned), models, now);
            let loads = started(Map::empty(), Some(pinned), models, now);
            &&& slots.dom() == tag_set(models)
            &&& forall|tag: Seq<char>| #[trigger]
                slots.dom().contains(tag) ==> slots[tag] == registry::loading_slot(now)
            &&& loads.no_duplicates()
            &&& loads.to_set() == tag_set(models)
        }),
    decreases models.len(),
{
    let slots = warmed(Map::empty(), Some(pinned), models, now);
    let loads = started(Map::empty(), Some(pinned), models, now);
    if models.len() == 0 {
        assert(slots.dom() =~= tag_set(models));
        assert(loads.to_set() =~= tag_set(models));
    } else {
        let tag = models.last()@;
        let before = started(Map::empty(), Some(pinned), models.drop_last(), now);
        assert(tag_set(models).contains(tag));
        lemma_warmed(pinned, models.drop_last(), now);
        assert(slots.dom() =~= tag_set(models));
        if !tag_set(models.drop_last()).contains(tag) {
            assert(loads == before.push(tag));
            assert(!before.contains(tag)) by {
                if before.contains(tag) {
                    assert(before.to_set().contains(tag));
                }
            }
            assert forall|t: Seq<char>| loads.to_set().contains(t) <==> tag_set(models).contains(
                t,
            ) by {
                if tag_set(models).contains(t) && t != tag {
                    assert(before.to_set().contains(t));
                    let k = choose|k: int| 0 <= k < before.len() && before[k] == t;
                    assert(loads[k] == t);
                }
                if t == tag {
                    assert(loads[before.len() as int] == tag);
                }
                if loads.contains(t) && t != tag {
                    let k = choose|k: int| 0 <= k < loads.len() && loads[k] == t;
                    assert(before[k] == t);
                    assert(before.to_set().contains(t));
                }
            }
            assert(loads.to_set() =~= tag_set(models));
        } else {
            assert(tag_set(models) =~= tag_set(models.drop_last()));
        }
    }
}

/// A list pins exactly the tags that it names.
pub proof fn law_pinned_tags_are_named(models: Seq<String>, tag: Seq<char>)
    ensures
        tag_set(models).contains(tag) <==> exists|i: int|
            0 <= i < models.len() && (#[trigger] models[i])@ == tag,
    decreases models.len(),
{
    if models.len() > 0 {
        let before = models.drop_last();
        law_pinned_tags_are_named(before, tag);
        if tag_set(before).contains(tag) {
            let i = choose|i: int| 0 <= i < before.len() && (#[trigger] before[i])@ == tag;
            assert(models[i]@ == tag);
        }
        if models.last()@ == tag {
            assert(models[models.len() - 1]@ == tag);
        }
        if exists|i: int| 0 <= i < models.len() && (#[trigger] models[i])@ == tag {
            let i = choose|i: int| 0 <= i < models.len() && (#[trigger] models[i])@ == tag;
            if i < before.len() {
                assert(before[i]@ == tag);
            }
        }
    }
}

/// An interval is never shorter than a second, and what is asked for otherwise.
pub proof fn law_intervals_are_at_least_one(seconds: u64)
    ensures
        at_least_one(seconds) >= 1,
        seconds >= 1 ==> at_least_one(seconds) == seconds,
{
}

/// Warming leaves models that are ready or loading alone, and tags that are not named;
/// every named tag that is served has a slot afterwards.
pub proof fn law_warming_touches_named_tags(
    slots: Map<Seq<char>, Slot>,
    pinned: Option<Set<Seq<char>>>,
    models: Seq<String>,
    now: u64,
    tag: Seq<char>,
)
    ensures
        ({
            let next = warmed(slots, pinned, models, now);
            let named = exists|i: int| 0 <= i < models.len() && (#[trigger] models[i])@ == tag;
            let missing = registry::tag_served(pinned, tag) && (!slots.dom().contains(tag)
                || slots[tag].state is Failed);
            &&& !named || !missing ==> next.dom().contains(tag) == slots.dom().contains(tag) && (
            slots.dom().contains(tag) ==> next[tag] == slots[tag])
            &&& named && missing ==> next.dom().contains(tag) && next[tag]
                == registry::loading_slot(now)
            &&& started(slots, pinned, models, now).contains(tag) <==> named && missing
        }),
    decreases models.len(),
{
    if models.len() > 0 {
        let before = models.drop_last();
        law_warming_touches_named_tags(slots, pinned, before, now, tag);
        let loads = started(slots, pinned, models, now);
        let earlier = started(slots, pinned, before, now);
        if exists|i: int| 0 <= i < before.len() && (#[trigger] before[i])@ == tag {
            let i = choose|i: int| 0 <= i < before.len() && (#[trigger] before[i])@ == tag;
            assert(models[i]@ == tag);
        }
        if models.last()@ == tag {
            assert(models[models.len() - 1]@ == tag);
        }
        if exists|i: int| 0 <= i < models.len() && (#[trigger] models[i])@ == tag {
            let i = choose|i: int| 0 <= i < models.len() && (#[trigger] models[i])@ == tag;
            if i < before.len() {
                assert(before[i]@ == tag);
            }
        }
        if earlier.contains(tag) {
            let k = choose|k: int| 0 <= k < earlier.len() && earlier[k] == tag;
            assert(loads[k] == tag);
        }
        if loads.contains(tag) {
            let k = choose|k: int| 0 <= k < loads.len() && loads[k] == tag;
            if k < earlier.len() {
                assert(earlier[k] == tag);
            }
        }
        if loads.len() > earlier.len() {
            assert(loads[earlier.len() as int] == models.last()@);
        }
    }
}

/// A node is wired to a control plane exactly where it has the plane's URL and its own
/// identity, and the wiring holds just these. A URL without an identity is refused, and
/// without a URL there is no wiring.
pub proof fn law_wiring_needs_both(
    r: Result<Option<NodeContext>, String>,
    control_plane_url: Option<String>,
    node_id: Option<String>,
    heartbeat_interval: u64,
    kv_flush_interval: u64,
)
    requires
        is_context(r, control_plane_url, node_id, heartbeat_interval, kv_flush_interval),
    ensures
        r is Err <==> control_plane_url is Some && node_id is None,
        r matches Ok(context) ==> (context is Some <==> control_plane_url is Some && node_id
            is Some),
        r matches Ok(Some(context)) ==> Some(context.control_plane_url) == control_plane_url
            && Some(context.node_id) == node_id && context.heartbeat_interval >= 1
            && context.kv_flush_interval >= 1 && (heartbeat_interval >= 1
            ==> context.heartbeat_interval == heartbeat_interval) && (kv_flush_interval >= 1
            ==> context.kv_flush_interval == kv_flush_interval),
{
}

} // verus!
