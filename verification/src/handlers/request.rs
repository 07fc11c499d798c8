//! What every inference request goes through before its prediction: a draining
//! node refuses it, and it waits for its model within bounds.

use super::error;
use super::error::AppError;
use crate::serving::registry;
use crate::serving::registry::{ModelHandle, ModelRegistry, ModelState, ReadyPoll, RegistryError};
use crate::state::AppState;
use vstd::prelude::*;

verus! {

/// What a request does next.
#[derive(Debug)]
pub enum RequestStep {
    /// The model is warm: predict.
    Predict(ModelHandle),
    /// Answer with an error.
    Answer(AppError),
    /// Wait until the load ends or the deadline passes, then ask again; where
    /// `start_load` is set, the load, which is registered at the download gate,
    /// has to be started first.
    Wait { start_load: bool },
}

/// Whether a result is how a request starts, on a node that drains or not.
pub open spec fn is_admission(r: Result<u128, AppError>, draining: bool, now: u64) -> bool {
    match r {
        Ok(deadline) => !draining && deadline == registry::hold_until(now),
        Err(e) => draining && e@ == error::draining_error(),
    }
}

/// Starts a request: a draining node refuses it, otherwise it may wait for its
/// model until the returned time.
pub fn begin(state: &AppState, now: u64) -> (r: Result<u128, AppError>)
    ensures
        is_admission(r, state.draining, now),
{
    if state.draining {
        return Err(AppError::draining());
    }
    Ok(ModelRegistry::hold_deadline(now))
}

/// The error of a request for a tag, if it gets one.
pub open spec fn refusal(
    state: AppState,
    tag: Seq<char>,
    now: u64,
    deadline: u128,
) -> Option<error::AppErrorView> {
    if !registry::tag_served(state.registry.pinned_tags(), tag) {
        Some(error::not_found_error(tag))
    } else if !state.registry@.dom().contains(tag) {
        None
    } else {
        match state.registry@[tag].state {
            ModelState::Ready(_) => None,
            ModelState::Failed { error, .. } => Some(
                error::registry_error(RegistryError::Failed(error)),
            ),
            ModelState::Loading { since } => if now >= deadline {
                Some(
                    error::registry_error(
                        RegistryError::Loading {
                            retry_after: registry::retry_secs(
                                state.registry.expected_secs(),
                                since,
                                now,
                            ),
                        },
                    ),
                )
            } else {
                None
            },
        }
    }
}

/// Whether a request for a tag starts a load.
pub open spec fn request_loads(state: AppState, tag: Seq<char>) -> bool {
    registry::tag_served(state.registry.pinned_tags(), tag) && !state.registry@.dom().contains(tag)
}

/// Whether a step is what a request for a tag does next.
pub open spec fn is_request_step(
    r: RequestStep,
    state: AppState,
    tag: Seq<char>,
    now: u64,
    deadline: u128,
) -> bool {
    match r {
        RequestStep::Answer(e) => refusal(state, tag, now, deadline) == Some(e@),
        RequestStep::Predict(held) => refusal(state, tag, now, deadline) is None
            && registry::is_ready(state.registry@, tag) && held.handle
            == state.registry@[tag].state->Ready_0.handle && held.plan@
            == state.registry@[tag].state->Ready_0.plan@ && held.plan.wf(),
        RequestStep::Wait { start_load } => refusal(state, tag, now, deadline) is None
            && !registry::is_ready(state.registry@, tag) && start_load == request_loads(
            state,
            tag,
        ),
    }
}

/// One step of a request for a model.
pub fn advance(state: &mut AppState, tag: &str, now: u64, deadline: u128) -> (r: RequestStep)
    requires
        old(state).wf(),
        old(state).gate@ < usize::MAX,
    ensures
        final(state).wf(),
        is_request_step(r, *old(state), tag@, now, deadline),
        final(state).registry@ == (if registry::tag_served(
            old(state).registry.pinned_tags(),
            tag@,
        ) {
            registry::after_asked(old(state).registry@, tag@, now)
        } else {
            old(state).registry@
        }),
        final(state).gate@ == old(state).gate@ + (if request_loads(*old(state), tag@) {
            1int
        } else {
            0int
        }),
        final(state).registry.pinned_tags() == old(state).registry.pinned_tags(),
        final(state).registry.expected_secs() == old(state).registry.expected_secs(),
        final(state).cache == old(state).cache,
        final(state).dispatcher == old(state).dispatcher,
        final(state).keys == old(state).keys,
        final(state).checkins == old(state).checkins,
        final(state).draining == old(state).draining,
{
    match state.registry.poll_ready(tag, now, deadline) {
        ReadyPoll::Ready(held) => RequestStep::Predict(held),
        ReadyPoll::Refused(e) => RequestStep::Answer(AppError::from_registry_error(&e)),
        ReadyPoll::Wait { start_load } => {
            if start_load {
                state.gate.enter_priority();
            }
            RequestStep::Wait { start_load }
        },
    }
}

/// The answer to a request whose wait timed out: to retry, if its model is
/// still loading; otherwise it asks again.
pub fn time_out(state: &AppState, tag: &str, now: u64) -> (r: Option<AppError>)
    requires
        state.wf(),
    ensures
        match r {
            Some(e) => state.registry@.dom().contains(tag@) && state.registry@[tag@].state is Loading
                && e@ == error::registry_error(
                RegistryError::Loading {
                    retry_after: registry::retry_secs(
                        state.registry.expected_secs(),
                        state.registry@[tag@].state->since,
                        now,
                    ),
                },
            ),
            None => !(state.registry@.dom().contains(tag@)
                && state.registry@[tag@].state is Loading),
        },
{
    match state.registry.timed_out(tag, now) {
        Some(e) => Some(AppError::from_registry_error(&e)),
        None => None,
    }
}

/// What a request is answered is decided by its model's state alone: a ready
/// model is never refused, one that is loading only once the deadline has
/// passed and then with 429, a failed one with 500, one that is not served with
/// 404; and no other request is refused.
pub proof fn law_refusals_follow_the_state(
    state: AppState,
    tag: Seq<char>,
    now: u64,
    deadline: u128,
)
    ensures
        registry::tag_served(state.registry.pinned_tags(), tag) && registry::is_ready(
            state.registry@,
            tag,
        ) ==> refusal(state, tag, now, deadline) is None,
        refusal(state, tag, now, deadline) matches Some(e) ==> {
            &&& e.status == 404 <==> !registry::tag_served(state.registry.pinned_tags(), tag)
            &&& e.status == 429 || e.status == 500 || e.status == 404
            &&& e.status == 429 ==> state.registry@[tag].state is Loading && now >= deadline
                && e.retry_after is Some
            &&& e.status == 500 ==> state.registry@[tag].state is Failed
        },
{
}

/// A request is refused exactly where its model is not served, has failed, or is still
/// loading when its time is up. The refusal tells the model that is not served, the
/// error of the failure, or the time after which to retry.
pub proof fn law_refusals_are_exact(state: AppState, tag: Seq<char>, now: u64, deadline: u128)
    ensures
        ({
            let served = registry::tag_served(state.registry.pinned_tags(), tag);
            let slots = state.registry@;
            let known = slots.dom().contains(tag);
            let answer = refusal(state, tag, now, deadline);
            &&& answer is Some <==> !served || (known && slots[tag].state is Failed) || (known
                && slots[tag].state is Loading && deadline <= now)
            &&& !served ==> answer == Some(error::not_found_error(tag))
            &&& served && known && slots[tag].state is Failed ==> answer == Some(
                error::registry_error(RegistryError::Failed(slots[tag].state->error)),
            )
            &&& served && known && slots[tag].state is Loading && deadline <= now ==> answer->0.status
                == 429 && answer->0.retry_after == Some(
                registry::retry_secs(
                    state.registry.expected_secs(),
                    slots[tag].state->since,
                    now,
                ),
            )
        }),
{
}

/// A request starts a load exactly where its model is served and nothing is known of it;
/// a request that is refused starts none.
pub proof fn law_refused_requests_start_no_load(
    state: AppState,
    tag: Seq<char>,
    now: u64,
    deadline: u128,
)
    ensures
        request_loads(state, tag) <==> registry::tag_served(state.registry.pinned_tags(), tag)
            && !state.registry@.dom().contains(tag),
        request_loads(state, tag) ==> refusal(state, tag, now, deadline) is None,
{
}

/// A draining node admits no request, and any other admits every one and lets it wait for
/// ten seconds.
pub proof fn law_draining_nodes_admit_nothing(
    r: Result<u128, AppError>,
    draining: bool,
    now: u64,
)
    requires
        is_admission(r, draining, now),
    ensures
        r is Err <==> draining,
        r matches Ok(deadline) ==> deadline == now + 10_000_000_000,
        r matches Err(e) ==> e.status == 503 && e.retry_after == Some(30u64),
{
}

/// A request predicts exactly where its model is served and ready, and with that model. It
/// waits where the model loads and its time is not up, or where nothing is known of it, and
/// then its load has to be started. Everything else is answered with an error.
pub proof fn law_requests_follow_the_state(
    r: RequestStep,
    state: AppState,
    tag: Seq<char>,
    now: u64,
    deadline: u128,
)
    requires
        is_request_step(r, state, tag, now, deadline),
    ensures
        ({
            let served = registry::tag_served(state.registry.pinned_tags(), tag);
            let slots = state.registry@;
            let known = slots.dom().contains(tag);
            &&& r is Predict <==> served && known && slots[tag].state is Ready
            &&& r matches RequestStep::Predict(held) ==> held.handle
                == slots[tag].state->Ready_0.handle && held.plan@ == slots[tag].state->Ready_0.plan@
            &&& r is Wait <==> served && (known ==> slots[tag].state is Loading && now < deadline)
            &&& r matches RequestStep::Wait { start_load } ==> start_load == !known
            &&& r matches RequestStep::Answer(e) ==> (e.status == 404 <==> !served) && (served ==> (
            e.status == 500 <==> slots[tag].state is Failed) && (e.status == 429
                <==> slots[tag].state is Loading))
        }),
{
}

} // verus!
