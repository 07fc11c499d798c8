//! What the server knows: models, disk, dispatch, credentials, check-ins.

use crate::inputs::NameSet;
use crate::serving::cache::CacheTracker;
use crate::serving::dispatch::Dispatcher;
use crate::serving::download_gate::DownloadGate;
use crate::serving::registry;
use crate::serving::registry::ModelRegistry;
use crate::tag_map::TagMap;
use vstd::hash_map::StringHashMap;
use vstd::prelude::*;

verus! {

/// Seconds between check-ins of a loaded model.
pub const CHECKIN_INTERVAL_SECONDS: u64 = 43_200;

/// Seconds after which a failed check-in is repeated.
pub const CHECKIN_RETRY_SECONDS: u64 = 3_600;

/// A Unix time some seconds later, or the last one.
pub open spec fn seconds_later(now: u64, seconds: u64) -> u64 {
    if now + seconds > u64::MAX {
        u64::MAX
    } else {
        (now + seconds) as u64
    }
}

/// When the next check-in of a model is due after one.
pub open spec fn next_checkin(now: u64, ok: bool) -> u64 {
    if ok {
        seconds_later(now, CHECKIN_INTERVAL_SECONDS)
    } else {
        seconds_later(now, CHECKIN_RETRY_SECONDS)
    }
}

/// Whether a model's check-in is due.
pub open spec fn checkin_due(checkins: Map<Seq<char>, u64>, model: Seq<char>, now: u64) -> bool {
    checkins.dom().contains(model) && now >= checkins[model]
}

/// The check-ins after a model was loaded.
pub open spec fn after_load(
    checkins: Map<Seq<char>, u64>,
    model: Seq<char>,
    now: u64,
) -> Map<Seq<char>, u64> {
    if checkins.dom().contains(model) {
        checkins
    } else {
        checkins.insert(model, next_checkin(now, true))
    }
}

/// Next check-in of each loaded model, as Unix times.
pub struct CheckIns {
    next: StringHashMap<u64>,
}

impl View for CheckIns {
    type V = Map<Seq<char>, u64>;

    closed spec fn view(&self) -> Map<Seq<char>, u64> {
        self.next@
    }
}

impl CheckIns {
    /// No check-ins.
    pub fn new() -> (r: CheckIns)
        ensures
            r@ == Map::<Seq<char>, u64>::empty(),
    {
        CheckIns { next: StringHashMap::new() }
    }

    /// Whether a model's check-in is due. A model without one made its first
    /// while loading.
    pub fn is_due(&self, model: &str, now: u64) -> (r: bool)
        ensures
            r == checkin_due(self@, model@, now),
    {
        match self.next.get(model) {
            Some(next) => now >= *next,
            None => false,
        }
    }

    /// Records a check-in: the next is due after the interval, or sooner where
    /// this one failed.
    pub fn checked_in(&mut self, model: &str, now: u64, ok: bool)
        ensures
            final(self)@ == old(self)@.insert(model@, next_checkin(now, ok)),
    {
        let delay: u64 = if ok {
            CHECKIN_INTERVAL_SECONDS
        } else {
            CHECKIN_RETRY_SECONDS
        };
        let next: u64 = match now.checked_add(delay) {
            Some(t) => t,
            None => u64::MAX,
        };
        self.next.insert(model.to_owned(), next);
    }

    /// Schedules the first check-in of a model, unless it has one.
    pub fn mark_model_loaded(&mut self, model: &str, now: u64)
        ensures
            final(self)@ == after_load(old(self)@, model@, now),
    {
        if !self.next.contains_key(model) {
            self.checked_in(model, now, true);
        }
    }
}

/// A check-in is not due again right after it was made.
pub proof fn law_checkin_is_not_due_again(
    checkins: Map<Seq<char>, u64>,
    model: Seq<char>,
    now: u64,
    ok: bool,
)
    requires
        now < u64::MAX,
    ensures
        !(now >= checkins.insert(model, next_checkin(now, ok))[model]),
{
}

/// The server's state.
pub struct AppState {
    pub registry: ModelRegistry,
    pub cache: CacheTracker,
    pub dispatcher: Dispatcher,
    /// Deployment keys by tag.
    pub keys: TagMap<String>,
    pub gate: DownloadGate,
    pub checkins: CheckIns,
    /// Whether new inference requests are rejected.
    pub draining: bool,
}

impl AppState {
    /// Every part is well-formed.
    pub open spec fn wf(&self) -> bool {
        &&& self.registry.wf()
        &&& self.cache.wf()
        &&& self.dispatcher.wf()
        &&& self.keys.wf()
    }

    /// The state at start.
    pub fn new(pinned: Option<NameSet>) -> (r: AppState)
        ensures
            r.wf(),
            r.registry@ == Map::<Seq<char>, registry::Slot>::empty(),
            r.registry.pinned_tags() == (match pinned {
                Some(set) => Some(set@),
                None => None,
            }),
            r.registry.expected_secs() == registry::DEFAULT_LOAD_SECS,
            r.cache@ == Map::<Seq<char>, crate::serving::cache::CacheState>::empty(),
            r.dispatcher@ == Map::<Seq<char>, crate::serving::dispatch::Entry>::empty(),
            r.keys@ == Map::<Seq<char>, String>::empty(),
            r.gate@ == 0,
            r.checkins@ == Map::<Seq<char>, u64>::empty(),
            !r.draining,
    {
        AppState {
            registry: ModelRegistry::new(pinned),
            cache: CacheTracker::new(),
            dispatcher: Dispatcher::new(),
            keys: TagMap::new(),
            gate: DownloadGate::new(),
            checkins: CheckIns::new(),
            draining: false,
        }
    }

    /// Whether a model has to check in now: it is due, and still loaded.
    pub fn check_in_due(&self, model: &str, now: u64) -> (r: bool)
        requires
            self.wf(),
        ensures
            r == (checkin_due(self.checkins@, model@, now) && registry::is_ready(
                self.registry@,
                model@,
            )),
    {
        self.checkins.is_due(model, now) && self.registry.ready(model).is_some()
    }
}

/// A check-in that succeeded is due again after twelve hours, and one that failed after an
/// hour; not a second before, and from there on.
pub proof fn law_checkins_are_due_on_time(
    checkins: Map<Seq<char>, u64>,
    model: Seq<char>,
    now: u64,
    ok: bool,
    later: u64,
)
    requires
        now + 43_200 <= u64::MAX,
    ensures
        checkin_due(checkins.insert(model, next_checkin(now, ok)), model, later) <==> later >= now
            + (if ok {
            43_200int
        } else {
            3_600int
        }),
{
}

/// A model that was loaded checks in twelve hours later, unless a check-in of it is
/// scheduled already; that of other models stays. Without a schedule nothing is due.
pub proof fn law_loads_schedule_checkins(
    checkins: Map<Seq<char>, u64>,
    model: Seq<char>,
    now: u64,
    later: u64,
)
    ensures
        ({
            let next = after_load(checkins, model, now);
            &&& next.dom().contains(model)
            &&& next.remove(model) == checkins.remove(model)
            &&& checkins.dom().contains(model) ==> next == checkins
            &&& !checkins.dom().contains(model) && now + 43_200 <= u64::MAX ==> next[model] == now
                + 43_200
            &&& !checkins.dom().contains(model) ==> !checkin_due(checkins, model, later)
        }),
{
    assert(after_load(checkins, model, now).remove(model) =~= checkins.remove(model));
}

/// Times do not run past the last one.
pub proof fn law_times_saturate(now: u64, seconds: u64)
    ensures
        seconds_later(now, seconds) >= now,
        now + seconds <= u64::MAX ==> seconds_later(now, seconds) == now + seconds,
        now + seconds > u64::MAX ==> seconds_later(now, seconds) == u64::MAX,
{
}

} // verus!
