//! Goals of the control plane, applied to the node.
//!
//! A heartbeat is answered by a list of goals. The node compares each with its
//! own state and walks there on its own. A tag that the list lacks keeps its
//! state, so an empty answer changes no model.

use super::protocol::{HeartbeatResponse, ModelDescriptor, Residency};
use crate::serving::cache;
use crate::serving::cache::{CachePriority, CacheState};
use crate::serving::dispatch::Entry;
use crate::serving::registry;
use crate::serving::registry::{ModelState, Slot, Unload};
use crate::state::AppState;
use vstd::prelude::*;

verus! {

/// What has to be done for a goal.
#[derive(Debug)]
pub enum Effect {
    /// Start loading a model. The load is registered at the download gate.
    StartLoad(String),
    /// Start downloading a model's resources.
    StartDownload(String, CachePriority),
    /// Retire what dispatches a model: its accumulator, if it has one, answers
    /// what it holds and ends.
    RetireDispatch(String, Entry),
    /// Delete the predictor that the handle names.
    DeletePredictor(String, u64),
}

/// An effect with its tag as text.
pub enum EffectView {
    StartLoad(Seq<char>),
    StartDownload(Seq<char>, CachePriority),
    RetireDispatch(Seq<char>, Entry),
    DeletePredictor(Seq<char>, u64),
}

impl View for Effect {
    type V = EffectView;

    open spec fn view(&self) -> EffectView {
        match self {
            Effect::StartLoad(tag) => EffectView::StartLoad(tag@),
            Effect::StartDownload(tag, priority) => EffectView::StartDownload(tag@, *priority),
            Effect::RetireDispatch(tag, entry) => EffectView::RetireDispatch(tag@, *entry),
            Effect::DeletePredictor(tag, handle) => EffectView::DeletePredictor(tag@, *handle),
        }
    }
}

/// What goals read and change of the server's state.
pub struct NodeView {
    pub pinned: Option<Set<Seq<char>>>,
    pub slots: Map<Seq<char>, Slot>,
    pub states: Map<Seq<char>, CacheState>,
    pub entries: Map<Seq<char>, Entry>,
    pub keys: Map<Seq<char>, String>,
    pub inflight: nat,
    pub draining: bool,
}

/// The node of a server's state.
pub open spec fn node_of(state: AppState) -> NodeView {
    NodeView {
        pinned: state.registry.pinned_tags(),
        slots: state.registry@,
        states: state.cache@,
        entries: state.dispatcher@,
        keys: state.keys@,
        inflight: state.gate@,
        draining: state.draining,
    }
}

/// Whether two states differ only in what goals change.
pub open spec fn same_elsewhere(a: AppState, b: AppState) -> bool {
    &&& a.registry.pinned_tags() == b.registry.pinned_tags()
    &&& a.registry.expected_secs() == b.registry.expected_secs()
    &&& a.dispatcher.locks() == b.dispatcher.locks()
    &&& a.dispatcher.opaque_counter() == b.dispatcher.opaque_counter()
    &&& a.checkins@ == b.checkins@
}

/// Whether a goal asks for a loaded engine.
pub open spec fn is_process(goal: ModelDescriptor) -> bool {
    goal.residency == Residency::Process
}

/// Whether a goal for a tag starts a load.
pub open spec fn goal_loads(node: NodeView, tag: Seq<char>, now: u64) -> bool {
    registry::warm_loads(node.slots, node.pinned, tag) && !registry::failed_recently(
        node.slots,
        tag,
        now,
    )
}

/// Whether a tag's record on disk is a failure.
pub open spec fn cache_failed(states: Map<Seq<char>, CacheState>, tag: Seq<char>) -> bool {
    states.dom().contains(tag) && states[tag] is Failed
}

/// The node after one goal was applied. `process` warms the engine and tracks
/// the disk tier too; `disk` takes the engine out and requests the resources;
/// without residency the engine goes, and a failed record with it. A tag that is
/// not served is left alone.
pub open spec fn after_goal(node: NodeView, goal: ModelDescriptor, now: u64) -> NodeView {
    let tag = goal.tag@;
    if !registry::tag_served(node.pinned, tag) {
        node
    } else {
        match goal.residency {
            Residency::Process => NodeView {
                slots: if goal_loads(node, tag, now) {
                    node.slots.insert(tag, registry::loading_slot(now))
                } else {
                    node.slots
                },
                states: cache::after_request(node.states, tag, now),
                inflight: if goal_loads(node, tag, now) {
                    node.inflight + 1
                } else {
                    node.inflight
                },
                ..node
            },
            Residency::Disk => NodeView {
                entries: node.entries.remove(tag),
                slots: registry::after_unload(node.slots, tag),
                states: cache::after_request(node.states, tag, now),
                ..node
            },
            Residency::Unloaded => NodeView {
                entries: node.entries.remove(tag),
                slots: registry::after_unload(node.slots, tag),
                states: if cache_failed(node.states, tag) {
                    node.states.remove(tag)
                } else {
                    node.states
                },
                ..node
            },
        }
    }
}

/// What is retired and deleted when a tag's engine is taken out.
pub open spec fn eviction(node: NodeView, tag: Seq<char>) -> Seq<EffectView> {
    let retired = if node.entries.dom().contains(tag) {
        seq![EffectView::RetireDispatch(tag, node.entries[tag])]
    } else {
        seq![]
    };
    let deleted = if registry::is_ready(node.slots, tag) {
        seq![EffectView::DeletePredictor(tag, node.slots[tag].state->Ready_0.handle)]
    } else {
        seq![]
    };
    retired + deleted
}

/// The download that a request for a tag starts, if any.
pub open spec fn fetch(
    node: NodeView,
    tag: Seq<char>,
    priority: CachePriority,
    now: u64,
) -> Seq<EffectView> {
    if cache::starts_download(node.states, tag, now) {
        seq![EffectView::StartDownload(tag, priority)]
    } else {
        seq![]
    }
}

/// What has to be done for one goal, in order.
pub open spec fn goal_effects(node: NodeView, goal: ModelDescriptor, now: u64) -> Seq<EffectView> {
    let tag = goal.tag@;
    if !registry::tag_served(node.pinned, tag) {
        seq![]
    } else {
        match goal.residency {
            Residency::Process => (if goal_loads(node, tag, now) {
                seq![EffectView::StartLoad(tag)]
            } else {
                seq![]
            }) + fetch(node, tag, CachePriority::Immediate, now),
            Residency::Disk => eviction(node, tag) + fetch(
                node,
                tag,
                CachePriority::Prefetch,
                now,
            ),
            Residency::Unloaded => eviction(node, tag),
        }
    }
}

/// Whether a goal changes what the node reports of the tag.
pub open spec fn goal_changes(node: NodeView, goal: ModelDescriptor, now: u64) -> bool {
    let tag = goal.tag@;
    let leaves = node.slots.dom().contains(tag) && !(node.slots[tag].state is Loading);
    registry::tag_served(node.pinned, tag) && match goal.residency {
        Residency::Process => goal_loads(node, tag, now) || cache::starts_download(
            node.states,
            tag,
            now,
        ),
        Residency::Disk => leaves || cache::starts_download(node.states, tag, now),
        Residency::Unloaded => leaves || cache_failed(node.states, tag),
    }
}

/// The node after a list of goals was applied in order.
pub open spec fn after_goals(node: NodeView, goals: Seq<ModelDescriptor>, now: u64) -> NodeView
    decreases goals.len(),
{
    if goals.len() == 0 {
        node
    } else {
        after_goal(after_goals(node, goals.drop_last(), now), goals.last(), now)
    }
}

/// What has to be done for a list of goals, in order.
pub open spec fn all_effects(
    node: NodeView,
    goals: Seq<ModelDescriptor>,
    now: u64,
) -> Seq<EffectView>
    decreases goals.len(),
{
    if goals.len() == 0 {
        seq![]
    } else {
        all_effects(node, goals.drop_last(), now) + goal_effects(
            after_goals(node, goals.drop_last(), now),
            goals.last(),
            now,
        )
    }
}

/// Whether a list of goals changes what the node reports.
pub open spec fn any_changes(node: NodeView, goals: Seq<ModelDescriptor>, now: u64) -> bool
    decreases goals.len(),
{
    goals.len() > 0 && (any_changes(node, goals.drop_last(), now) || goal_changes(
        after_goals(node, goals.drop_last(), now),
        goals.last(),
        now,
    ))
}

/// Credentials with those that a list of goals brings; a later one wins.
pub open spec fn with_keys(
    keys: Map<Seq<char>, String>,
    goals: Seq<ModelDescriptor>,
) -> Map<Seq<char>, String>
    decreases goals.len(),
{
    if goals.len() == 0 {
        keys
    } else {
        let before = with_keys(keys, goals.drop_last());
        match goals.last().key {
            Some(key) => before.insert(goals.last().tag@, key),
            None => before,
        }
    }
}

/// Goals in the order in which they are applied: those for a loaded engine
/// come first.
pub open spec fn in_order(goals: Seq<ModelDescriptor>) -> Seq<ModelDescriptor> {
    goals.filter(|d: ModelDescriptor| is_process(d)) + goals.filter(
        |d: ModelDescriptor| !is_process(d),
    )
}

/// The node after a reply was applied: credentials are stored before any goal
/// is acted on, because the loads and downloads that goals start read them.
pub open spec fn after_reply(
    node: NodeView,
    goals: Seq<ModelDescriptor>,
    drain: Option<bool>,
    now: u64,
) -> NodeView {
    let keyed = NodeView { keys: with_keys(node.keys, goals), ..node };
    NodeView {
        draining: drains(node.draining, goals, drain),
        ..after_goals(keyed, in_order(goals), now)
    }
}

/// Whether a node drains after a reply: as it says. A reply with goals that does
/// not say so ends a drain; an empty one leaves it.
pub open spec fn drains(
    draining: bool,
    goals: Seq<ModelDescriptor>,
    drain: Option<bool>,
) -> bool {
    match drain {
        Some(drain) => drain,
        None => goals.len() == 0 && draining,
    }
}

/// Whether a reply changes what is reported.
pub open spec fn reply_changes(
    node: NodeView,
    goals: Seq<ModelDescriptor>,
    drain: Option<bool>,
    now: u64,
) -> bool {
    any_changes(node, in_order(goals), now) || drains(node.draining, goals, drain) != node.draining
}

/// The values that a list of references refers to.
pub open spec fn referents(list: Seq<&ModelDescriptor>) -> Seq<ModelDescriptor> {
    list.map_values(|d: &ModelDescriptor| *d)
}

/// Orders goals so that those for a loaded engine are applied before the rest,
/// whatever order they were listed in. Stable within each group.
pub fn process_first(models: &Vec<ModelDescriptor>) -> (r: Vec<&ModelDescriptor>)
    ensures
        referents(r@) == in_order(models@),
{
    let ghost process = |d: ModelDescriptor| is_process(d);
    let ghost rest = |d: ModelDescriptor| !is_process(d);
    let mut out: Vec<&ModelDescriptor> = Vec::new();
    let mut i: usize = 0;
    while i < models.len()
        invariant
            i <= models@.len(),
            process == (|d: ModelDescriptor| is_process(d)),
            referents(out@) == models@.take(i as int).filter(process),
        decreases models.len() - i,
    {
        proof {
            reveal(Seq::filter);
            assert(models@.take(i + 1).drop_last() =~= models@.take(i as int));
        }
        let ghost before = out@;
        if models[i].residency == Residency::Process {
            out.push(&models[i]);
            assert(referents(out@) =~= referents(before).push(models@[i as int]));
        }
        i = i + 1;
    }
    assert(models@.take(i as int) =~= models@);
    let ghost first = out@;
    let mut j: usize = 0;
    assert(referents(out@) =~= models@.filter(process) + models@.take(0).filter(rest)) by {
        reveal(Seq::filter);
    }
    while j < models.len()
        invariant
            j <= models@.len(),
            rest == (|d: ModelDescriptor| !is_process(d)),
            referents(out@) == models@.filter(process) + models@.take(j as int).filter(rest),
        decreases models.len() - j,
    {
        proof {
            reveal(Seq::filter);
            assert(models@.take(j + 1).drop_last() =~= models@.take(j as int));
        }
        let ghost before = out@;
        if !(models[j].residency == Residency::Process) {
            out.push(&models[j]);
            assert(referents(out@) =~= referents(before).push(models@[j as int]));
            assert(referents(out@) =~= models@.filter(process) + models@.take(j as int).filter(
                rest,
            ).push(models@[j as int]));
        }
        j = j + 1;
    }
    assert(models@.take(j as int) =~= models@);
    out
}

/// The views of a list of effects.
pub open spec fn effects_view(effects: Seq<Effect>) -> Seq<EffectView> {
    effects.map_values(|e: Effect| e@)
}

fn push_effect(effects: &mut Vec<Effect>, effect: Effect)
    ensures
        effects_view(final(effects)@) == effects_view(old(effects)@).push(effect@),
{
    let ghost before = effects@;
    effects.push(effect);
    assert(effects_view(effects@) =~= effects_view(before).push(effect@));
}

/// Takes a tag's engine out; returns whether that changes what the node reports.
fn evict(state: &mut AppState, tag: &str, effects: &mut Vec<Effect>) -> (r: bool)
    requires
        old(state).wf(),
    ensures
        final(state).wf(),
        same_elsewhere(*old(state), *final(state)),
        node_of(*final(state)) == (NodeView {
            entries: old(state).dispatcher@.remove(tag@),
            slots: registry::after_unload(old(state).registry@, tag@),
            ..node_of(*old(state))
        }),
        effects_view(final(effects)@) == effects_view(old(effects)@) + eviction(
            node_of(*old(state)),
            tag@,
        ),
        r == (old(state).registry@.dom().contains(tag@) && !(
        old(state).registry@[tag@].state is Loading)),
{
    let ghost node = node_of(*state);
    let ghost start = effects_view(effects@);
    match state.dispatcher.remove(tag) {
        Some(entry) => push_effect(effects, Effect::RetireDispatch(tag.to_owned(), entry)),
        None => {},
    }
    let changed: bool = match state.registry.unload(tag) {
        Unload::Nothing => false,
        Unload::Deferred => false,
        Unload::Dropped => true,
        Unload::Delete(handle) => {
            push_effect(effects, Effect::DeletePredictor(tag.to_owned(), handle));
            true
        },
    };
    assert(effects_view(effects@) =~= start + eviction(node, tag@));
    changed
}

/// Applies one goal; returns whether it changes what the node reports.
fn apply_goal(
    state: &mut AppState,
    goal: &ModelDescriptor,
    now: u64,
    effects: &mut Vec<Effect>,
) -> (r: bool)
    requires
        old(state).wf(),
        old(state).gate@ < usize::MAX,
    ensures
        final(state).wf(),
        same_elsewhere(*old(state), *final(state)),
        node_of(*final(state)) == after_goal(node_of(*old(state)), *goal, now),
        final(state).gate@ <= old(state).gate@ + 1,
        effects_view(final(effects)@) == effects_view(old(effects)@) + goal_effects(
            node_of(*old(state)),
            *goal,
            now,
        ),
        r == goal_changes(node_of(*old(state)), *goal, now),
{
    let ghost node = node_of(*state);
    let ghost start = effects_view(effects@);
    let tag: &str = goal.tag.as_str();
    if !state.registry.serves(tag) {
        assert(start + goal_effects(node, *goal, now) =~= start);
        return false;
    }
    let changed: bool = match goal.residency {
        Residency::Process => {
            let loads: bool = state.registry.warm_reconcile(tag, now);
            if loads {
                state.gate.enter_priority();
                push_effect(effects, Effect::StartLoad(tag.to_owned()));
            }
            let downloads: bool = state.cache.ensure_cached(tag, now);
            if downloads {
                push_effect(
                    effects,
                    Effect::StartDownload(tag.to_owned(), CachePriority::Immediate),
                );
            }
            loads || downloads
        },
        Residency::Disk => {
            let left: bool = evict(state, tag, effects);
            let downloads: bool = state.cache.ensure_cached(tag, now);
            if downloads {
                push_effect(
                    effects,
                    Effect::StartDownload(tag.to_owned(), CachePriority::Prefetch),
                );
            }
            left || downloads
        },
        Residency::Unloaded => {
            let left: bool = evict(state, tag, effects);
            let forgotten: bool = state.cache.forget_failed(tag);
            left || forgotten
        },
    };
    assert(effects_view(effects@) =~= start + goal_effects(node, *goal, now));
    changed
}

/// What a reply calls for.
#[derive(Debug)]
pub struct Applied {
    /// What has to be done, in order.
    pub effects: Vec<Effect>,
    /// Whether what the node reports has changed, so that the next heartbeat is
    /// due at once.
    pub changed: bool,
}

/// Applies a heartbeat's reply to the node.
pub fn apply(state: &mut AppState, reconcile: &HeartbeatResponse, now: u64) -> (r: Applied)
    requires
        old(state).wf(),
        old(state).gate@ + reconcile.models@.len() <= usize::MAX,
    ensures
        final(state).wf(),
        same_elsewhere(*old(state), *final(state)),
        node_of(*final(state)) == after_reply(
            node_of(*old(state)),
            reconcile.models@,
            reconcile.drain,
            now,
        ),
        effects_view(r.effects@) == all_effects(
            node_of(*old(state)),
            in_order(reconcile.models@),
            now,
        ),
        r.changed == reply_changes(
            node_of(*old(state)),
            reconcile.models@,
            reconcile.drain,
            now,
        ),
{
    let ghost models = reconcile.models@;
    let ghost given = *state;
    let mut i: usize = 0;
    while i < reconcile.models.len()
        invariant
            i <= models.len(),
            models == reconcile.models@,
            state.wf(),
            same_elsewhere(given, *state),
            node_of(*state) == (NodeView {
                keys: with_keys(given.keys@, models.take(i as int)),
                ..node_of(given)
            }),
        decreases models.len() - i,
    {
        assert(models.take(i + 1).drop_last() =~= models.take(i as int));
        match &reconcile.models[i].key {
            Some(key) => {
                let replaced: Option<String> = state.keys.insert(
                    reconcile.models[i].tag.as_str(),
                    key.clone(),
                );
            },
            None => {},
        }
        i = i + 1;
    }
    assert(models.take(i as int) =~= models);
    let ghost keyed = node_of(*state);
    let goals: Vec<&ModelDescriptor> = process_first(&reconcile.models);
    let ghost list = in_order(models);
    assert(list.len() == models.len()) by {
        law_order_keeps_goals(models);
    }
    assert(goals@.len() == referents(goals@).len());
    let mut effects: Vec<Effect> = Vec::new();
    let mut changed: bool = false;
    let mut k: usize = 0;
    assert(effects_view(effects@) =~= all_effects(keyed, list.take(0), now));
    while k < goals.len()
        invariant
            k <= goals@.len(),
            goals@.len() == list.len(),
            list == referents(goals@),
            state.wf(),
            same_elsewhere(given, *state),
            given.gate@ + list.len() <= usize::MAX,
            state.gate@ <= given.gate@ + k,
            node_of(*state) == after_goals(keyed, list.take(k as int), now),
            effects_view(effects@) == all_effects(keyed, list.take(k as int), now),
            changed == any_changes(keyed, list.take(k as int), now),
        decreases goals.len() - k,
    {
        proof {
            assert(list.take(k + 1).drop_last() =~= list.take(k as int));
            assert(list.take(k + 1).last() == *goals@[k as int]);
        }
        if apply_goal(state, goals[k], now, &mut effects) {
            changed = true;
        }
        k = k + 1;
    }
    assert(list.take(k as int) =~= list);
    proof {
        lemma_keys_do_not_matter(node_of(given), keyed, list, now);
        lemma_draining_is_kept(keyed, list, now);
    }
    let drain: bool = match reconcile.drain {
        Some(drain) => drain,
        None => reconcile.models.len() == 0 && state.draining,
    };
    if drain != state.draining {
        state.draining = drain;
        changed = true;
    }
    Applied { effects, changed }
}

/// Credentials decide nothing about goals.
proof fn lemma_keys_do_not_matter(
    a: NodeView,
    b: NodeView,
    goals: Seq<ModelDescriptor>,
    now: u64,
)
    requires
        b == (NodeView { keys: b.keys, ..a }),
    ensures
        after_goals(b, goals, now) == (NodeView { keys: b.keys, ..after_goals(a, goals, now) }),
        all_effects(b, goals, now) == all_effects(a, goals, now),
        any_changes(b, goals, now) == any_changes(a, goals, now),
    decreases goals.len(),
{
    if goals.len() > 0 {
        lemma_keys_do_not_matter(a, b, goals.drop_last(), now);
    }
}

proof fn lemma_draining_is_kept(node: NodeView, goals: Seq<ModelDescriptor>, now: u64)
    ensures
        after_goals(node, goals, now).draining == node.draining,
        after_goals(node, goals, now).pinned == node.pinned,
    decreases goals.len(),
{
    if goals.len() > 0 {
        lemma_draining_is_kept(node, goals.drop_last(), now);
    }
}

/// Ordering neither loses nor repeats a goal, and puts every goal for a loaded
/// engine before every other.
pub proof fn law_order_keeps_goals(goals: Seq<ModelDescriptor>)
    ensures
        in_order(goals).to_multiset() == goals.to_multiset(),
        in_order(goals).len() == goals.len(),
        forall|i: int, j: int|
            0 <= i < j < goals.len() && is_process(#[trigger] in_order(goals)[j]) ==> is_process(
                #[trigger] in_order(goals)[i],
            ),
    decreases goals.len(),
{
    broadcast use vstd::seq_lib::group_to_multiset_ensures;
    broadcast use vstd::seq::group_seq_axioms;

    let process = |d: ModelDescriptor| is_process(d);
    let rest = |d: ModelDescriptor| !is_process(d);
    lemma_partition(goals);
    let first = goals.filter(process);
    let last = goals.filter(rest);
    vstd::seq_lib::lemma_multiset_commutative(first, last);
    assert(in_order(goals).to_multiset().len() == goals.to_multiset().len());
    assert forall|i: int, j: int|
        0 <= i < j < goals.len() && is_process(#[trigger] in_order(goals)[j]) implies is_process(
        #[trigger] in_order(goals)[i],
    ) by {
        lemma_filtered(goals, process);
        lemma_filtered(goals, rest);
        if j >= first.len() {
            assert(in_order(goals)[j] == last[j - first.len()]);
        }
        assert(in_order(goals)[i] == first[i]);
    }
}

/// What passes a filter satisfies its predicate.
proof fn lemma_filtered(goals: Seq<ModelDescriptor>, keeps: spec_fn(ModelDescriptor) -> bool)
    ensures
        forall|i: int|
            0 <= i < goals.filter(keeps).len() ==> keeps(#[trigger] goals.filter(keeps)[i]),
    decreases goals.len(),
{
    reveal(Seq::filter);
    if goals.len() > 0 {
        lemma_filtered(goals.drop_last(), keeps);
    }
}

proof fn lemma_partition(goals: Seq<ModelDescriptor>)
    ensures
        goals.filter(|d: ModelDescriptor| is_process(d)).to_multiset().add(
            goals.filter(|d: ModelDescriptor| !is_process(d)).to_multiset(),
        ) == goals.to_multiset(),
    decreases goals.len(),
{
    broadcast use vstd::seq_lib::group_to_multiset_ensures;

    reveal(Seq::filter);
    let process = |d: ModelDescriptor| is_process(d);
    let rest = |d: ModelDescriptor| !is_process(d);
    if goals.len() > 0 {
        let before = goals.drop_last();
        lemma_partition(before);
        assert(goals =~= before.push(goals.last()));
        assert(goals.filter(process).to_multiset().add(goals.filter(rest).to_multiset())
            =~= goals.to_multiset());
    } else {
        assert(goals.filter(process) =~= goals);
        assert(goals.filter(rest) =~= goals);
        assert(goals.to_multiset().add(goals.to_multiset()) =~= goals.to_multiset());
    }
}

/// An empty reply changes nothing, starts nothing and stores nothing: a
/// truncated or fresh control plane can neither unload a fleet nor end a drain.
pub proof fn law_empty_reply_is_a_no_op(node: NodeView, now: u64)
    ensures
        after_reply(node, seq![], None, now) == node,
        all_effects(node, in_order(seq![]), now) == Seq::<EffectView>::empty(),
        !any_changes(node, in_order(seq![]), now),
{
    reveal(Seq::filter);
    let none: Seq<ModelDescriptor> = seq![];
    assert(in_order(none) =~= none);
}

/// Whether a list of goals names a tag.
pub open spec fn names(goals: Seq<ModelDescriptor>, tag: Seq<char>) -> bool {
    exists|i: int| 0 <= i < goals.len() && (#[trigger] goals[i]).tag@ == tag
}

/// Whether two nodes agree about a tag.
pub open spec fn agree_on(a: NodeView, b: NodeView, tag: Seq<char>) -> bool {
    &&& a.slots.dom().contains(tag) == b.slots.dom().contains(tag)
    &&& a.slots.dom().contains(tag) ==> a.slots[tag] == b.slots[tag]
    &&& a.states.dom().contains(tag) == b.states.dom().contains(tag)
    &&& a.states.dom().contains(tag) ==> a.states[tag] == b.states[tag]
    &&& a.entries.dom().contains(tag) == b.entries.dom().contains(tag)
    &&& a.entries.dom().contains(tag) ==> a.entries[tag] == b.entries[tag]
    &&& a.keys.dom().contains(tag) == b.keys.dom().contains(tag)
    &&& a.keys.dom().contains(tag) ==> a.keys[tag] == b.keys[tag]
}

/// A tag that a reply does not name keeps its state.
pub proof fn law_absent_tags_keep_their_state(
    node: NodeView,
    goals: Seq<ModelDescriptor>,
    drain: Option<bool>,
    now: u64,
    tag: Seq<char>,
)
    requires
        !names(goals, tag),
    ensures
        agree_on(node, after_reply(node, goals, drain, now), tag),
{
    let keyed = NodeView { keys: with_keys(node.keys, goals), ..node };
    lemma_absent_keys(node.keys, goals, tag);
    law_order_keeps_goals(goals);
    assert(!names(in_order(goals), tag)) by {
        if names(in_order(goals), tag) {
            broadcast use vstd::seq_lib::group_to_multiset_ensures;

            let list = in_order(goals);
            let i = choose|i: int| 0 <= i < list.len() && (#[trigger] list[i]).tag@ == tag;
            assert(list.contains(list[i]));
            assert(list.to_multiset().count(list[i]) > 0);
            assert(goals.contains(list[i]));
        }
    }
    lemma_absent_goals(keyed, in_order(goals), now, tag);
}

proof fn lemma_absent_keys(
    keys: Map<Seq<char>, String>,
    goals: Seq<ModelDescriptor>,
    tag: Seq<char>,
)
    requires
        !names(goals, tag),
    ensures
        with_keys(keys, goals).dom().contains(tag) == keys.dom().contains(tag),
        keys.dom().contains(tag) ==> with_keys(keys, goals)[tag] == keys[tag],
    decreases goals.len(),
{
    if goals.len() > 0 {
        let before = goals.drop_last();
        assert(!names(before, tag)) by {
            assert forall|i: int| 0 <= i < before.len() implies (#[trigger] before[i]).tag@ != tag by {
                assert(goals[i].tag@ != tag);
            }
        }
        assert(goals[goals.len() - 1].tag@ != tag);
        lemma_absent_keys(keys, before, tag);
    }
}

proof fn lemma_absent_goals(
    node: NodeView,
    goals: Seq<ModelDescriptor>,
    now: u64,
    tag: Seq<char>,
)
    requires
        !names(goals, tag),
    ensures
        agree_on(node, after_goals(node, goals, now), tag),
    decreases goals.len(),
{
    if goals.len() > 0 {
        let before = goals.drop_last();
        assert(!names(before, tag)) by {
            assert forall|i: int| 0 <= i < before.len() implies (#[trigger] before[i]).tag@ != tag by {
                assert(goals[i].tag@ != tag);
            }
        }
        assert(goals[goals.len() - 1].tag@ != tag);
        lemma_absent_goals(node, before, now, tag);
    }
}

/// The credential that a reply brings for a tag last is the one that is stored,
/// and loads and downloads that it starts find it there.
pub proof fn law_last_key_wins(
    node: NodeView,
    goals: Seq<ModelDescriptor>,
    drain: Option<bool>,
    now: u64,
    i: int,
)
    requires
        0 <= i < goals.len(),
        goals[i].key is Some,
        forall|j: int|
            i < j < goals.len() && (#[trigger] goals[j]).tag@ == goals[i].tag@ ==> goals[j].key is None,
    ensures
        after_reply(node, goals, drain, now).keys.dom().contains(goals[i].tag@),
        after_reply(node, goals, drain, now).keys[goals[i].tag@] == goals[i].key->0,
{
    let keyed = NodeView { keys: with_keys(node.keys, goals), ..node };
    lemma_last_key(node.keys, goals, i);
    lemma_keys_are_kept(keyed, in_order(goals), now);
}

proof fn lemma_last_key(keys: Map<Seq<char>, String>, goals: Seq<ModelDescriptor>, i: int)
    requires
        0 <= i < goals.len(),
        goals[i].key is Some,
        forall|j: int|
            i < j < goals.len() && (#[trigger] goals[j]).tag@ == goals[i].tag@ ==> goals[j].key is None,
    ensures
        with_keys(keys, goals).dom().contains(goals[i].tag@),
        with_keys(keys, goals)[goals[i].tag@] == goals[i].key->0,
    decreases goals.len(),
{
    let before = goals.drop_last();
    if i < before.len() {
        assert(before[i] == goals[i]);
        assert forall|j: int|
            i < j < before.len() && (#[trigger] before[j]).tag@
                == before[i].tag@ implies before[j].key is None by {
            assert(goals[j].key is None);
        }
        lemma_last_key(keys, before, i);
        assert(goals[goals.len() - 1].tag@ == goals[i].tag@ ==> goals[goals.len()
            - 1].key is None);
    }
}

proof fn lemma_keys_are_kept(node: NodeView, goals: Seq<ModelDescriptor>, now: u64)
    ensures
        after_goals(node, goals, now).keys == node.keys,
    decreases goals.len(),
{
    if goals.len() > 0 {
        lemma_keys_are_kept(node, goals.drop_last(), now);
    }
}

/// Applying a goal again is free: nothing changes and nothing has to be done,
/// at the same time, or later where no failure was left to cool down.
pub proof fn law_goals_are_idempotent(node: NodeView, goal: ModelDescriptor, now: u64, later: u64)
    requires
        later == now || !(registry::failed_recently(node.slots, goal.tag@, now) || cache_failed(
            after_goal(node, goal, now).states,
            goal.tag@,
        )),
    ensures
        after_goal(after_goal(node, goal, now), goal, later) == after_goal(node, goal, now),
        goal_effects(after_goal(node, goal, now), goal, later) == Seq::<EffectView>::empty(),
        !goal_changes(after_goal(node, goal, now), goal, later),
{
    let once = after_goal(node, goal, now);
    let twice = after_goal(once, goal, later);
    assert(twice.slots =~= once.slots);
    assert(twice.states =~= once.states);
    assert(twice.entries =~= once.entries);
    assert(goal_effects(once, goal, later) =~= Seq::<EffectView>::empty());
}

/// How many loads a list of effects starts.
pub open spec fn loads(effects: Seq<EffectView>) -> nat
    decreases effects.len(),
{
    if effects.len() == 0 {
        0
    } else {
        loads(effects.drop_last()) + (if effects.last() is StartLoad {
            1nat
        } else {
            0nat
        })
    }
}

proof fn lemma_loads_add(a: Seq<EffectView>, b: Seq<EffectView>)
    ensures
        loads(a + b) == loads(a) + loads(b),
    decreases b.len(),
{
    if b.len() == 0 {
        assert(a + b =~= a);
    } else {
        assert((a + b).drop_last() =~= a + b.drop_last());
        lemma_loads_add(a, b.drop_last());
    }
}

/// Every load that goals start is registered at the download gate, and nothing
/// else is.
pub proof fn law_loads_enter_the_gate(node: NodeView, goals: Seq<ModelDescriptor>, now: u64)
    ensures
        after_goals(node, goals, now).inflight == node.inflight + loads(
            all_effects(node, goals, now),
        ),
    decreases goals.len(),
{
    if goals.len() > 0 {
        let before = goals.drop_last();
        law_loads_enter_the_gate(node, before, now);
        let mid = after_goals(node, before, now);
        lemma_loads_add(all_effects(node, before, now), goal_effects(mid, goals.last(), now));
        lemma_goal_loads(mid, goals.last(), now);
    }
}

proof fn lemma_goal_loads(node: NodeView, goal: ModelDescriptor, now: u64)
    ensures
        after_goal(node, goal, now).inflight == node.inflight + loads(goal_effects(node, goal, now)),
{
    reveal_with_fuel(loads, 4);
    let effects = goal_effects(node, goal, now);
    if effects.len() >= 1 {
        assert(effects.drop_last().len() == effects.len() - 1);
        if effects.len() >= 2 {
            assert(effects.drop_last().last() == effects[effects.len() - 2]);
            if effects.len() >= 3 {
                assert(effects.drop_last().drop_last().last() == effects[effects.len() - 3]);
            }
        }
    }
}

/// No prefetch that a reply starts comes before a load that it starts, so by
/// the time a prefetch asks, every load is counted.
pub proof fn law_prefetch_queues_behind_loads(
    node: NodeView,
    goals: Seq<ModelDescriptor>,
    now: u64,
    i: int,
    j: int,
)
    requires
        0 <= i < all_effects(node, in_order(goals), now).len(),
        0 <= j < all_effects(node, in_order(goals), now).len(),
        all_effects(node, in_order(goals), now)[i] is StartLoad,
        all_effects(node, in_order(goals), now)[j] matches EffectView::StartDownload(_, priority)
            && priority == CachePriority::Prefetch,
    ensures
        i < j,
{
    let process = |d: ModelDescriptor| is_process(d);
    let rest = |d: ModelDescriptor| !is_process(d);
    let first = goals.filter(process);
    let last = goals.filter(rest);
    lemma_filtered(goals, process);
    lemma_filtered(goals, rest);
    lemma_effects_split(node, first, last, now);
    lemma_process_effects(node, first, now);
    lemma_rest_effects(after_goals(node, first, now), last, now);
    let a = all_effects(node, first, now);
    let b = all_effects(after_goals(node, first, now), last, now);
    assert(all_effects(node, in_order(goals), now) == a + b);
    if i >= a.len() {
        assert((a + b)[i] == b[i - a.len()]);
    }
    if j < a.len() {
        assert((a + b)[j] == a[j]);
    }
}

proof fn lemma_effects_split(
    node: NodeView,
    a: Seq<ModelDescriptor>,
    b: Seq<ModelDescriptor>,
    now: u64,
)
    ensures
        after_goals(node, a + b, now) == after_goals(after_goals(node, a, now), b, now),
        all_effects(node, a + b, now) == all_effects(node, a, now) + all_effects(
            after_goals(node, a, now),
            b,
            now,
        ),
    decreases b.len(),
{
    if b.len() == 0 {
        assert(a + b =~= a);
        assert(all_effects(node, a, now) + Seq::<EffectView>::empty() =~= all_effects(
            node,
            a,
            now,
        ));
    } else {
        assert((a + b).drop_last() =~= a + b.drop_last());
        lemma_effects_split(node, a, b.drop_last(), now);
        assert(all_effects(node, a + b, now) =~= all_effects(node, a, now) + all_effects(
            after_goals(node, a, now),
            b,
            now,
        ));
    }
}

proof fn lemma_process_effects(node: NodeView, goals: Seq<ModelDescriptor>, now: u64)
    requires
        forall|k: int| 0 <= k < goals.len() ==> is_process(#[trigger] goals[k]),
    ensures
        forall|k: int|
            0 <= k < all_effects(node, goals, now).len() ==> match #[trigger] all_effects(
                node,
                goals,
                now,
            )[k] {
                EffectView::StartDownload(_, priority) => priority == CachePriority::Immediate,
                _ => true,
            },
    decreases goals.len(),
{
    if goals.len() > 0 {
        lemma_process_effects(node, goals.drop_last(), now);
        assert(is_process(goals[goals.len() - 1]));
    }
}

proof fn lemma_rest_effects(node: NodeView, goals: Seq<ModelDescriptor>, now: u64)
    requires
        forall|k: int| 0 <= k < goals.len() ==> !is_process(#[trigger] goals[k]),
    ensures
        forall|k: int|
            0 <= k < all_effects(node, goals, now).len() ==> !(#[trigger] all_effects(
                node,
                goals,
                now,
            )[k] is StartLoad),
    decreases goals.len(),
{
    if goals.len() > 0 {
        lemma_rest_effects(node, goals.drop_last(), now);
        assert(!is_process(goals[goals.len() - 1]));
    }
}

/// Whether the node may load a tag: it is pinned, or nothing is.
pub open spec fn may_serve(node: NodeView, tag: Seq<char>) -> bool {
    node.pinned matches Some(pinned) ==> pinned.contains(tag)
}

/// Whether a tag's last attempt on disk left room for another: there was none,
/// or it failed long enough ago.
pub open spec fn may_fetch(node: NodeView, tag: Seq<char>, now: u64) -> bool {
    node.states.dom().contains(tag) ==> (node.states[tag] matches CacheState::Failed { at, .. }
        && at + 60_000_000_000 <= now)
}

/// Whether a tag's last load left room for another: there was none, or it failed
/// long enough ago.
pub open spec fn may_load(node: NodeView, tag: Seq<char>, now: u64) -> bool {
    node.slots.dom().contains(tag) ==> (node.slots[tag].state matches ModelState::Failed {
        at,
        ..
    } && at + 60_000_000_000 <= now)
}

/// A goal for a tag that the node does not serve does nothing.
pub proof fn law_unserved_goals_do_nothing(node: NodeView, goal: ModelDescriptor, now: u64)
    requires
        !may_serve(node, goal.tag@),
    ensures
        after_goal(node, goal, now) == node,
        goal_effects(node, goal, now).len() == 0,
        !goal_changes(node, goal, now),
{
}

/// A goal for a loaded engine brings the tag there. A ready or loading model is
/// left as it is. One that is not known, or whose failure has cooled down, starts
/// to load: that load, and no other, is counted at the download gate and called for. A
/// recent failure stays visible. Dispatch is left alone.
pub proof fn law_process_goals_load(node: NodeView, goal: ModelDescriptor, now: u64)
    requires
        may_serve(node, goal.tag@),
        goal.residency is Process,
    ensures
        ({
            let tag = goal.tag@;
            let next = after_goal(node, goal, now);
            let loads = may_load(node, tag, now);
            &&& next.slots.dom().contains(tag)
            &&& next.slots.remove(tag) == node.slots.remove(tag)
            &&& loads ==> next.slots[tag].state == (ModelState::Loading { since: now })
                && !next.slots[tag].unload_requested && next.inflight == node.inflight + 1
            &&& !loads ==> next.slots == node.slots && next.inflight == node.inflight
            &&& goal_effects(node, goal, now).contains(EffectView::StartLoad(tag)) <==> loads
            &&& next.entries == node.entries
            &&& next.keys == node.keys
            &&& next.draining == node.draining
        }),
{
    let tag = goal.tag@;
    let next = after_goal(node, goal, now);
    let effects = goal_effects(node, goal, now);
    assert(next.slots.remove(tag) =~= node.slots.remove(tag));
    if may_load(node, tag, now) {
        assert(effects[0] == EffectView::StartLoad(tag));
    }
}

/// A goal without a loaded engine takes the engine out: the tag is not ready and
/// dispatches nothing afterwards. A ready model goes, and its predictor has to be
/// deleted; a failed record goes; a model that loads is marked, so that it goes
/// when it is loaded. What dispatched it has to be retired.
pub proof fn law_other_goals_take_the_engine_out(node: NodeView, goal: ModelDescriptor, now: u64)
    requires
        may_serve(node, goal.tag@),
        !(goal.residency is Process),
    ensures
        ({
            let tag = goal.tag@;
            let next = after_goal(node, goal, now);
            let effects = goal_effects(node, goal, now);
            &&& !next.entries.dom().contains(tag)
            &&& next.entries == node.entries.remove(tag)
            &&& next.slots.remove(tag) == node.slots.remove(tag)
            &&& next.slots.dom().contains(tag) ==> next.slots[tag].state is Loading
                && next.slots[tag].unload_requested
            &&& next.slots.dom().contains(tag) <==> node.slots.dom().contains(tag)
                && node.slots[tag].state is Loading
            &&& next.slots.dom().contains(tag) ==> next.slots[tag].state == node.slots[tag].state
            &&& forall|handle: u64|
                #[trigger] effects.contains(EffectView::DeletePredictor(tag, handle)) <==> (
                node.slots.dom().contains(tag) && (node.slots[tag].state matches ModelState::Ready(
                    model,
                ) && model.handle == handle))
            &&& forall|entry: Entry|
                #[trigger] effects.contains(EffectView::RetireDispatch(tag, entry)) <==> (
                node.entries.dom().contains(tag) && node.entries[tag] == entry)
            &&& !effects.contains(EffectView::StartLoad(tag))
            &&& next.inflight == node.inflight
            &&& next.keys == node.keys
            &&& next.draining == node.draining
        }),
{
    let tag = goal.tag@;
    let next = after_goal(node, goal, now);
    let effects = goal_effects(node, goal, now);
    let out = eviction(node, tag);
    assert(next.slots.remove(tag) =~= node.slots.remove(tag));
    assert(effects =~= out + (if goal.residency is Disk {
        fetch(node, tag, CachePriority::Prefetch, now)
    } else {
        seq![]
    }));
    assert forall|i: int| 0 <= i < out.len() implies effects[i] == out[i] by {}
    let retired = node.entries.dom().contains(tag);
    if retired {
        assert(effects[0] == EffectView::RetireDispatch(tag, node.entries[tag]));
    }
    if registry::is_ready(node.slots, tag) {
        let at: int = if retired {
            1
        } else {
            0
        };
        assert(effects[at] == EffectView::DeletePredictor(
            tag,
            node.slots[tag].state->Ready_0.handle,
        ));
    }
}

/// A goal keeps the disk as it says. With a loaded engine or with the resources on
/// disk the tag is tracked, and a download starts where none has been tried or the
/// last failure has cooled down: at once for a loaded engine, as a prefetch
/// otherwise. Without residency nothing is downloaded; a failed record is
/// forgotten, and resources on disk are kept.
pub proof fn law_goals_keep_the_disk(node: NodeView, goal: ModelDescriptor, now: u64)
    requires
        may_serve(node, goal.tag@),
    ensures
        ({
            let tag = goal.tag@;
            let next = after_goal(node, goal, now);
            let effects = goal_effects(node, goal, now);
            let fetches = !(goal.residency is Unloaded) && may_fetch(node, tag, now);
            &&& next.states.remove(tag) == node.states.remove(tag)
            &&& fetches ==> next.states.dom().contains(tag) && next.states[tag] is Caching
            &&& !fetches && !(goal.residency is Unloaded) ==> next.states == node.states
            &&& goal.residency is Unloaded ==> (next.states.dom().contains(tag) <==> (
            node.states.dom().contains(tag) && !(node.states[tag] is Failed)))
            &&& goal.residency is Unloaded && next.states.dom().contains(tag) ==> next.states[tag]
                == node.states[tag]
            &&& forall|priority: CachePriority|
                #[trigger] effects.contains(EffectView::StartDownload(tag, priority)) <==> (fetches
                    && priority == (if goal.residency is Process {
                    CachePriority::Immediate
                } else {
                    CachePriority::Prefetch
                }))
        }),
{
    let tag = goal.tag@;
    let next = after_goal(node, goal, now);
    let effects = goal_effects(node, goal, now);
    assert(next.states.remove(tag) =~= node.states.remove(tag));
    let fetches = !(goal.residency is Unloaded) && may_fetch(node, tag, now);
    if fetches {
        assert(effects.last() is StartDownload);
        assert(effects[effects.len() - 1] == effects.last());
    }
}

/// Everything that a goal calls for is about its own tag.
pub proof fn law_effects_are_of_their_tag(
    node: NodeView,
    goal: ModelDescriptor,
    now: u64,
    effect: EffectView,
)
    requires
        goal_effects(node, goal, now).contains(effect),
    ensures
        match effect {
            EffectView::StartLoad(tag) => tag == goal.tag@,
            EffectView::StartDownload(tag, _) => tag == goal.tag@,
            EffectView::RetireDispatch(tag, _) => tag == goal.tag@,
            EffectView::DeletePredictor(tag, _) => tag == goal.tag@,
        },
{
}

/// A goal is reported as a change exactly where it changes a model's state or
/// what is known of the disk. That a model which loads was marked to go is no
/// change yet.
pub proof fn law_changes_are_reported(node: NodeView, goal: ModelDescriptor, now: u64)
    ensures
        ({
            let tag = goal.tag@;
            let next = after_goal(node, goal, now);
            goal_changes(node, goal, now) <==> {
                ||| node.slots.dom().contains(tag) != next.slots.dom().contains(tag)
                ||| node.slots.dom().contains(tag) && node.slots[tag].state != next.slots[tag].state
                ||| node.states.dom().contains(tag) != next.states.dom().contains(tag)
                ||| node.states.dom().contains(tag) && node.states[tag] != next.states[tag]
            }
        }),
{
}

/// Goals are applied one after another: a list in two parts is the first part and
/// then the second, a single goal is that goal, and no goal is nothing.
pub proof fn law_goals_compose(
    node: NodeView,
    a: Seq<ModelDescriptor>,
    b: Seq<ModelDescriptor>,
    goal: ModelDescriptor,
    now: u64,
)
    ensures
        after_goals(node, a + b, now) == after_goals(after_goals(node, a, now), b, now),
        all_effects(node, a + b, now) == all_effects(node, a, now) + all_effects(
            after_goals(node, a, now),
            b,
            now,
        ),
        any_changes(node, a + b, now) == (any_changes(node, a, now) || any_changes(
            after_goals(node, a, now),
            b,
            now,
        )),
        after_goals(node, seq![goal], now) == after_goal(node, goal, now),
        all_effects(node, seq![goal], now) == goal_effects(node, goal, now),
        any_changes(node, seq![goal], now) == goal_changes(node, goal, now),
        after_goals(node, seq![], now) == node,
        all_effects(node, seq![], now).len() == 0,
        !any_changes(node, seq![], now),
    decreases b.len(),
{
    lemma_effects_split(node, a, b, now);
    reveal_with_fuel(after_goals, 2);
    reveal_with_fuel(all_effects, 2);
    reveal_with_fuel(any_changes, 2);
    assert(seq![goal].drop_last() =~= Seq::<ModelDescriptor>::empty());
    assert(all_effects(node, seq![goal], now) =~= goal_effects(node, goal, now));
    if b.len() == 0 {
        assert(a + b =~= a);
    } else {
        assert((a + b).drop_last() =~= a + b.drop_last());
        law_goals_compose(node, a, b.drop_last(), goal, now);
        lemma_effects_split(node, a, b.drop_last(), now);
    }
}

/// Goals of the same kind keep their order.
pub proof fn law_order_is_stable(goals: Seq<ModelDescriptor>)
    ensures
        in_order(goals).filter(|d: ModelDescriptor| d.residency is Process) == goals.filter(
            |d: ModelDescriptor| d.residency is Process,
        ),
        in_order(goals).filter(|d: ModelDescriptor| !(d.residency is Process)) == goals.filter(
            |d: ModelDescriptor| !(d.residency is Process),
        ),
{
    let process = |d: ModelDescriptor| d.residency is Process;
    let rest = |d: ModelDescriptor| !(d.residency is Process);
    let p = |d: ModelDescriptor| is_process(d);
    let r = |d: ModelDescriptor| !is_process(d);
    lemma_same_filter(goals, process, p);
    lemma_same_filter(goals, rest, r);
    let first = goals.filter(p);
    let last = goals.filter(r);
    lemma_filtered(goals, p);
    lemma_filtered(goals, r);
    lemma_filter_all(first, process);
    lemma_filter_none(last, process);
    lemma_filter_none(first, rest);
    lemma_filter_all(last, rest);
    Seq::filter_distributes_over_add(first, last, process);
    Seq::filter_distributes_over_add(first, last, rest);
    assert(in_order(goals).filter(process) =~= first);
    assert(in_order(goals).filter(rest) =~= last);
}

proof fn lemma_same_filter(
    goals: Seq<ModelDescriptor>,
    f: spec_fn(ModelDescriptor) -> bool,
    g: spec_fn(ModelDescriptor) -> bool,
)
    requires
        forall|d: ModelDescriptor| #[trigger] f(d) == g(d),
    ensures
        goals.filter(f) == goals.filter(g),
    decreases goals.len(),
{
    reveal(Seq::filter);
    if goals.len() > 0 {
        lemma_same_filter(goals.drop_last(), f, g);
    }
}

proof fn lemma_filter_all(goals: Seq<ModelDescriptor>, f: spec_fn(ModelDescriptor) -> bool)
    requires
        forall|i: int| 0 <= i < goals.len() ==> f(#[trigger] goals[i]),
    ensures
        goals.filter(f) == goals,
    decreases goals.len(),
{
    reveal(Seq::filter);
    if goals.len() > 0 {
        let before = goals.drop_last();
        assert forall|i: int| 0 <= i < before.len() implies f(#[trigger] before[i]) by {
            assert(f(goals[i]));
        }
        lemma_filter_all(before, f);
        assert(f(goals[goals.len() - 1]));
        assert(before.push(goals.last()) =~= goals);
    } else {
        assert(goals.filter(f) =~= goals);
    }
}

proof fn lemma_filter_none(goals: Seq<ModelDescriptor>, f: spec_fn(ModelDescriptor) -> bool)
    requires
        forall|i: int| 0 <= i < goals.len() ==> !f(#[trigger] goals[i]),
    ensures
        goals.filter(f) == Seq::<ModelDescriptor>::empty(),
    decreases goals.len(),
{
    reveal(Seq::filter);
    if goals.len() > 0 {
        let before = goals.drop_last();
        assert forall|i: int| 0 <= i < before.len() implies !f(#[trigger] before[i]) by {
            assert(!f(goals[i]));
        }
        lemma_filter_none(before, f);
        assert(!f(goals[goals.len() - 1]));
    } else {
        assert(goals.filter(f) =~= Seq::<ModelDescriptor>::empty());
    }
}

/// A reply is its goals, applied in order to the node with the credentials that it
/// brings: it decides nothing else but whether the node drains. What it says of
/// that counts; where it does not say, goals end a drain.
pub proof fn law_replies_apply_their_goals(
    node: NodeView,
    goals: Seq<ModelDescriptor>,
    drain: Option<bool>,
    now: u64,
)
    ensures
        ({
            let next = after_reply(node, goals, drain, now);
            let goal = after_goals(node, in_order(goals), now);
            &&& next.pinned == node.pinned
            &&& next.slots == goal.slots
            &&& next.states == goal.states
            &&& next.entries == goal.entries
            &&& next.inflight == goal.inflight
            &&& drain is Some ==> next.draining == drain->0
            &&& drain is None && goals.len() > 0 ==> !next.draining
            &&& drain is None && goals.len() == 0 ==> next.draining == node.draining
        }),
{
    let keyed = NodeView { keys: with_keys(node.keys, goals), ..node };
    lemma_keys_do_not_matter(node, keyed, in_order(goals), now);
    lemma_pinned_is_kept(node, in_order(goals), now);
}

proof fn lemma_pinned_is_kept(node: NodeView, goals: Seq<ModelDescriptor>, now: u64)
    ensures
        after_goals(node, goals, now).pinned == node.pinned,
    decreases goals.len(),
{
    if goals.len() > 0 {
        lemma_pinned_is_kept(node, goals.drop_last(), now);
    }
}

/// A credential is kept where no goal brings another for its tag.
pub proof fn law_keys_are_kept(
    node: NodeView,
    goals: Seq<ModelDescriptor>,
    drain: Option<bool>,
    now: u64,
    tag: Seq<char>,
)
    requires
        forall|i: int|
            0 <= i < goals.len() && (#[trigger] goals[i]).tag@ == tag ==> goals[i].key is None,
    ensures
        after_reply(node, goals, drain, now).keys.dom().contains(tag) == node.keys.dom().contains(
            tag,
        ),
        node.keys.dom().contains(tag) ==> after_reply(node, goals, drain, now).keys[tag]
            == node.keys[tag],
{
    let keyed = NodeView { keys: with_keys(node.keys, goals), ..node };
    lemma_keys_are_kept(keyed, in_order(goals), now);
    lemma_unkeyed(node.keys, goals, tag);
}

proof fn lemma_unkeyed(
    keys: Map<Seq<char>, String>,
    goals: Seq<ModelDescriptor>,
    tag: Seq<char>,
)
    requires
        forall|i: int|
            0 <= i < goals.len() && (#[trigger] goals[i]).tag@ == tag ==> goals[i].key is None,
    ensures
        with_keys(keys, goals).dom().contains(tag) == keys.dom().contains(tag),
        keys.dom().contains(tag) ==> with_keys(keys, goals)[tag] == keys[tag],
    decreases goals.len(),
{
    if goals.len() > 0 {
        let before = goals.drop_last();
        assert forall|i: int|
            0 <= i < before.len() && (#[trigger] before[i]).tag@ == tag implies before[i].key is None by {
            assert(goals[i].tag@ == tag);
        }
        lemma_unkeyed(keys, before, tag);
        assert(goals[goals.len() - 1].tag@ == tag ==> goals[goals.len() - 1].key is None);
    }
}

/// A reply is reported as a change exactly where one of its goals changes something, or
/// where the node starts or stops to drain.
pub proof fn law_replies_report_changes(
    node: NodeView,
    goals: Seq<ModelDescriptor>,
    drain: Option<bool>,
    now: u64,
)
    ensures
        reply_changes(node, goals, drain, now) <==> any_changes(node, in_order(goals), now)
            || after_reply(node, goals, drain, now).draining != node.draining,
{
}

/// What a goal calls for comes in an order that is safe: what dispatches a model is retired
/// before its predictor is deleted, and a load is started before the download that it may
/// wait for. Nothing is called for twice.
pub proof fn law_effects_are_ordered(
    node: NodeView,
    goal: ModelDescriptor,
    now: u64,
    i: int,
    j: int,
)
    requires
        0 <= i < j < goal_effects(node, goal, now).len(),
    ensures
        ({
            let effects = goal_effects(node, goal, now);
            &&& !(effects[j] is RetireDispatch)
            &&& effects[j] is DeletePredictor ==> effects[i] is RetireDispatch
            &&& !(effects[j] is StartLoad)
            &&& !(effects[i] is StartDownload)
        }),
{
}

/// An effect is seen as what it is.
pub proof fn law_effects_are_seen_as_they_are(effect: Effect)
    ensures
        match effect {
            Effect::StartLoad(tag) => effect@ == EffectView::StartLoad(tag@),
            Effect::StartDownload(tag, priority) => effect@ == EffectView::StartDownload(
                tag@,
                priority,
            ),
            Effect::RetireDispatch(tag, entry) => effect@ == EffectView::RetireDispatch(
                tag@,
                entry,
            ),
            Effect::DeletePredictor(tag, handle) => effect@ == EffectView::DeletePredictor(
                tag@,
                handle,
            ),
        },
{
}

/// A node is what the server's state holds: the same models, disk, dispatch, credentials and
/// downloads, and the same drain.
pub proof fn law_nodes_are_the_state(state: AppState)
    ensures
        node_of(state).slots == state.registry@,
        node_of(state).states == state.cache@,
        node_of(state).entries == state.dispatcher@,
        node_of(state).keys == state.keys@,
        node_of(state).inflight == state.gate@,
        node_of(state).draining == state.draining,
        node_of(state).pinned == state.registry.pinned_tags(),
{
}

} // verus!
