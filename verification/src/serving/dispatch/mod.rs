//! Per-model prediction dispatch keyed on the batch plan.
//!
//! - Continuous: fully concurrent; the compiled model owns synchronization.
//! - Sequential: one lock per model, so that a slow model blocks no other.
//! - Buffered: one accumulator per model that merges compatible requests. It
//!   holds the model's lock around each invocation, because other surfaces
//!   bypass it and take that lock themselves.
//!
//! A compiled predictor that is not continuous is never invoked concurrently,
//! whichever surface a request arrives on.

use crate::inputs::Inputs;
use crate::prediction::Acceleration;
use crate::serving::batch;
use crate::serving::batch::{compute_batch_key, item_count, BatchPlan, PlanView};
use crate::tag_map::TagMap;
use crate::value::ValueView;
use vstd::prelude::*;
use worker::{BufferedWorker, PredictItem};

pub mod merge;
pub mod worker;

verus! {

/// Dispatch state of one model, derived from its plan on first use. Locks are
/// named by numbers.
#[derive(Clone, Copy, Debug, PartialEq, Eq, Structural)]
pub enum Entry {
    /// Requests serialize on the model's lock.
    Sequential { lock: u64 },
    /// Requests are queued to the model's accumulator, which holds the lock
    /// around each flush.
    Buffered { lock: u64 },
    /// Requests go straight to the executor.
    Continuous,
}

/// What has to be set up for a model that is dispatched for the first time.
#[derive(Debug)]
pub enum Created {
    /// The model was known already, or needs no coordination.
    Nothing,
    /// A lock.
    Lock(u64),
    /// A lock, and an accumulator that holds it around each flush.
    Worker(u64, BufferedWorker),
}

/// How a prediction is dispatched.
#[derive(Debug)]
pub enum Route {
    /// Straight to the executor, without a lock.
    Direct(Inputs, Acceleration),
    /// To the executor, under the lock.
    Locked(u64, Inputs, Acceleration),
    /// To the accumulator that holds the lock.
    Queued(u64, PredictItem),
}

/// The entry of a plan.
pub open spec fn entry_of(plan: PlanView, lock: u64) -> Entry {
    match plan {
        PlanView::Sequential => Entry::Sequential { lock },
        PlanView::Buffered { .. } => Entry::Buffered { lock },
        PlanView::Continuous => Entry::Continuous,
    }
}

/// The lock of an entry.
pub open spec fn lock_of(entry: Entry) -> Option<u64> {
    match entry {
        Entry::Sequential { lock } => Some(lock),
        Entry::Buffered { lock } => Some(lock),
        Entry::Continuous => None,
    }
}

/// The entries once a tag has one.
pub open spec fn with_entry(
    entries: Map<Seq<char>, Entry>,
    tag: Seq<char>,
    plan: PlanView,
    lock: u64,
) -> Map<Seq<char>, Entry> {
    if entries.dom().contains(tag) {
        entries
    } else {
        entries.insert(tag, entry_of(plan, lock))
    }
}

/// The number of the next lock once a tag has an entry: one is handed out to a
/// new entry that needs it.
pub open spec fn next_lock_after(
    entries: Map<Seq<char>, Entry>,
    tag: Seq<char>,
    plan: PlanView,
    lock: u64,
) -> int {
    if entries.dom().contains(tag) || plan is Continuous {
        lock as int
    } else {
        lock + 1
    }
}

/// Whether what is set up is what a plan's entry needs.
pub open spec fn sets_up(
    created: Created,
    entries: Map<Seq<char>, Entry>,
    tag: Seq<char>,
    plan: BatchPlan,
    lock: u64,
) -> bool {
    if entries.dom().contains(tag) {
        created is Nothing
    } else {
        match plan {
            BatchPlan::Sequential => created == Created::Lock(lock),
            BatchPlan::Continuous => created is Nothing,
            BatchPlan::Buffered { params, capacity } => created matches Created::Worker(l, w) && l
                == lock && w.wf() && w@ == Map::<Seq<char>, Seq<PredictItem>>::empty()
                && w.batch_capacity() == capacity && w.batch_params()@ == params@ && w.filed() == 0,
        }
    }
}

/// Whether a request is what its inputs make of it.
pub open spec fn is_item(
    item: PredictItem,
    inputs: Inputs,
    acceleration: Acceleration,
    params: Set<Seq<char>>,
    counter: u64,
    now: u64,
    ticket: u64,
) -> bool {
    &&& item.inputs == inputs
    &&& item.acceleration == acceleration
    &&& batch::is_item_count(item.item_count as nat, inputs@, params)
    &&& item.batch_key@ == batch::batch_key(inputs.names(), inputs@, params, counter)
    &&& item.enqueued == now
    &&& item.ticket == ticket
}

/// Whether a route is the one that an entry gives a request.
pub open spec fn is_route(
    route: Route,
    entry: Entry,
    inputs: Inputs,
    acceleration: Acceleration,
    params: Set<Seq<char>>,
    counter: u64,
    now: u64,
    ticket: u64,
) -> bool {
    match entry {
        Entry::Continuous => route == Route::Direct(inputs, acceleration),
        Entry::Sequential { lock } => route == Route::Locked(lock, inputs, acceleration),
        Entry::Buffered { lock } => route matches Route::Queued(l, item) && l == lock && is_item(
            item,
            inputs,
            acceleration,
            params,
            counter,
            now,
            ticket,
        ),
    }
}

/// Routes predictions through each model's batch plan.
pub struct Dispatcher {
    entries: TagMap<Entry>,
    next_lock: u64,
    opaque: u64,
}

impl View for Dispatcher {
    type V = Map<Seq<char>, Entry>;

    closed spec fn view(&self) -> Map<Seq<char>, Entry> {
        self.entries@
    }
}

impl Dispatcher {
    /// How many locks were handed out.
    pub closed spec fn locks(&self) -> u64 {
        self.next_lock
    }

    /// The number that the next opaque value takes in a batch key.
    pub closed spec fn opaque_counter(&self) -> u64 {
        self.opaque
    }

    /// No two models share a lock.
    pub closed spec fn wf(&self) -> bool {
        &&& self.entries.wf()
        &&& forall|tag: Seq<char>| #[trigger]
            self.entries@.dom().contains(tag) ==> (lock_of(self.entries@[tag]) matches Some(lock)
                ==> lock < self.next_lock)
        &&& forall|a: Seq<char>, b: Seq<char>|
            #![trigger self.entries@.dom().contains(a), self.entries@.dom().contains(b)]
            a != b && self.entries@.dom().contains(a) && self.entries@.dom().contains(b)
                && lock_of(self.entries@[a]) is Some ==> lock_of(self.entries@[a]) != lock_of(
                self.entries@[b],
            )
    }

    /// A dispatcher without models.
    pub fn new() -> (r: Dispatcher)
        ensures
            r.wf(),
            r@ == Map::<Seq<char>, Entry>::empty(),
            r.locks() == 0,
            r.opaque_counter() == 0,
    {
        Dispatcher { entries: TagMap::new(), next_lock: 0, opaque: 0 }
    }

    /// Whether another lock can be handed out.
    pub fn has_room(&self) -> (r: bool)
        ensures
            r == (self.locks() < u64::MAX),
    {
        self.next_lock < u64::MAX
    }

    /// Gives a model its entry, unless it has one.
    pub fn ensure_entry(&mut self, tag: &str, plan: &BatchPlan) -> (r: Created)
        requires
            old(self).wf(),
            old(self).locks() < u64::MAX,
            plan.wf(),
        ensures
            final(self).wf(),
            final(self)@ == with_entry(old(self)@, tag@, plan@, old(self).locks()),
            final(self).opaque_counter() == old(self).opaque_counter(),
            final(self).locks() == next_lock_after(old(self)@, tag@, plan@, old(self).locks()),
            sets_up(r, old(self)@, tag@, *plan, old(self).locks()),
    {
        if self.entries.contains(tag) {
            return Created::Nothing;
        }
        let lock: u64 = self.next_lock;
        match plan {
            BatchPlan::Sequential => {
                self.next_lock = lock + 1;
                let replaced: Option<Entry> = self.entries.insert(tag, Entry::Sequential { lock });
                Created::Lock(lock)
            },
            BatchPlan::Continuous => {
                let replaced: Option<Entry> = self.entries.insert(tag, Entry::Continuous);
                Created::Nothing
            },
            BatchPlan::Buffered { params, capacity } => {
                self.next_lock = lock + 1;
                let replaced: Option<Entry> = self.entries.insert(tag, Entry::Buffered { lock });
                Created::Worker(lock, BufferedWorker::new(params.clone(), *capacity))
            },
        }
    }

    /// Dispatches a prediction through the model's plan.
    ///
    /// A buffered entry belongs to a buffered plan: a model's entry is removed
    /// before it may be loaded with another plan.
    pub fn create(
        &mut self,
        tag: &str,
        plan: &BatchPlan,
        inputs: Inputs,
        acceleration: Acceleration,
        now: u64,
        ticket: u64,
    ) -> (r: (Created, Route))
        requires
            old(self).wf(),
            old(self).locks() < u64::MAX,
            plan.wf(),
            inputs.wf(),
            old(self)@.dom().contains(tag@) && old(self)@[tag@] is Buffered ==> plan is Buffered,
        ensures
            final(self).wf(),
            final(self)@ == with_entry(old(self)@, tag@, plan@, old(self).locks()),
            final(self).locks() == next_lock_after(old(self)@, tag@, plan@, old(self).locks()),
            sets_up(r.0, old(self)@, tag@, *plan, old(self).locks()),
            is_route(
                r.1,
                final(self)@[tag@],
                inputs,
                acceleration,
                plan@->params,
                old(self).opaque_counter(),
                now,
                ticket,
            ),
            final(self).opaque_counter() == (if final(self)@[tag@] is Buffered {
                batch::counter_after(
                    inputs.names(),
                    inputs@,
                    plan@->params,
                    old(self).opaque_counter(),
                )
            } else {
                old(self).opaque_counter()
            }),
    {
        let created: Created = self.ensure_entry(tag, plan);
        let entry: Entry = match self.entries.get(tag) {
            Some(entry) => *entry,
            None => Entry::Continuous,
        };
        let route: Route = match entry {
            Entry::Continuous => Route::Direct(inputs, acceleration),
            Entry::Sequential { lock } => Route::Locked(lock, inputs, acceleration),
            Entry::Buffered { lock } => match plan {
                BatchPlan::Buffered { params, .. } => {
                    let count: usize = item_count(&inputs, params);
                    let mut opaque: u64 = self.opaque;
                    let batch_key: String = compute_batch_key(&inputs, params, &mut opaque);
                    self.opaque = opaque;
                    Route::Queued(
                        lock,
                        PredictItem {
                            inputs,
                            acceleration,
                            item_count: count,
                            batch_key,
                            enqueued: now,
                            ticket,
                            arrival: 0,
                        },
                    )
                },
                _ => {
                    assert(false);
                    Route::Direct(inputs, acceleration)
                },
            },
        };
        (created, route)
    }

    /// The lock that guards a model's invocation, if its plan requires one.
    /// Surfaces that bypass the accumulator take it around their own calls.
    pub fn acquire(&mut self, tag: &str, plan: &BatchPlan) -> (r: (Created, Option<u64>))
        requires
            old(self).wf(),
            old(self).locks() < u64::MAX,
            plan.wf(),
        ensures
            final(self).wf(),
            final(self)@ == with_entry(old(self)@, tag@, plan@, old(self).locks()),
            final(self).opaque_counter() == old(self).opaque_counter(),
            final(self).locks() == next_lock_after(old(self)@, tag@, plan@, old(self).locks()),
            sets_up(r.0, old(self)@, tag@, *plan, old(self).locks()),
            r.1 == lock_of(final(self)@[tag@]),
    {
        let created: Created = self.ensure_entry(tag, plan);
        let lock: Option<u64> = match self.entries.get(tag) {
            Some(Entry::Sequential { lock }) => Some(*lock),
            Some(Entry::Buffered { lock }) => Some(*lock),
            _ => None,
        };
        (created, lock)
    }

    /// Drops a model's entry and returns it.
    pub fn remove(&mut self, tag: &str) -> (r: Option<Entry>)
        requires
            old(self).wf(),
        ensures
            final(self).wf(),
            final(self)@ == old(self)@.remove(tag@),
            final(self).locks() == old(self).locks(),
            final(self).opaque_counter() == old(self).opaque_counter(),
            r == (if old(self)@.dom().contains(tag@) {
                Some(old(self)@[tag@])
            } else {
                None
            }),
    {
        self.entries.remove(tag)
    }

    /// The entry of a model.
    pub fn entry(&self, tag: &str) -> (r: Option<Entry>)
        requires
            self.wf(),
        ensures
            r == (if self@.dom().contains(tag@) {
                Some(self@[tag@])
            } else {
                None
            }),
    {
        match self.entries.get(tag) {
            Some(entry) => Some(*entry),
            None => None,
        }
    }

    /// Two models never share a lock.
    pub proof fn law_locks_are_distinct(&self, a: Seq<char>, b: Seq<char>)
        requires
            self.wf(),
            self@.dom().contains(a),
            self@.dom().contains(b),
            a != b,
            lock_of(self@[a]) is Some,
        ensures
            lock_of(self@[a]) != lock_of(self@[b]),
    {
    }
}

/// Whether an invocation may start while some locks are held: a guard is granted
/// once nobody else holds its lock, and one without a lock at once.
pub open spec fn may_invoke(held: Set<u64>, guard: Option<u64>) -> bool {
    guard matches Some(lock) ==> !held.contains(lock)
}

/// The locks that are held once a guard was granted.
pub open spec fn with_guard(held: Set<u64>, guard: Option<u64>) -> Set<u64> {
    match guard {
        Some(lock) => held.insert(lock),
        None => held,
    }
}

/// The locks that are held once a guard was dropped.
pub open spec fn without_guard(held: Set<u64>, guard: Option<u64>) -> Set<u64> {
    match guard {
        Some(lock) => held.remove(lock),
        None => held,
    }
}

/// Guards exclude each other. Of two calls of `acquire`, the first for one tag
/// and the second for that tag or another, with the dispatcher as each leaves it:
/// a guard is given unless the plan is continuous; while the first guard is held a
/// second one of the tag is not granted, and once it is dropped it is; and holding
/// it keeps no other tag waiting.
pub proof fn law_guards_exclude_each_other(
    first: Dispatcher,
    second: Dispatcher,
    tag: Seq<char>,
    other: Seq<char>,
    plan: PlanView,
    held: Set<u64>,
)
    requires
        first.wf(),
        second.wf(),
        first@.dom().contains(tag),
        second@ == with_entry(first@, other, plan, first.locks()),
    ensures
        lock_of(first@[tag]) is None <==> first@[tag] is Continuous,
        other == tag ==> lock_of(second@[other]) == lock_of(first@[tag]),
        other == tag && first@[tag] !is Continuous ==> !may_invoke(
            with_guard(held, lock_of(first@[tag])),
            lock_of(second@[other]),
        ),
        other == tag ==> may_invoke(
            without_guard(with_guard(held, lock_of(first@[tag])), lock_of(first@[tag])),
            lock_of(second@[other]),
        ),
        other != tag && may_invoke(held, lock_of(second@[other])) ==> may_invoke(
            with_guard(held, lock_of(first@[tag])),
            lock_of(second@[other]),
        ),
{
    assert(second@.dom().contains(tag) && second@.dom().contains(other));
    if other != tag && lock_of(first@[tag]) is Some {
        second.law_locks_are_distinct(tag, other);
    }
}

/// Every plan but a continuous one is guarded, and by one lock however the
/// model is reached: the lock that `acquire` hands out, the one that serializes
/// sequential calls and the one that the accumulator holds are the same, and
/// stay so until the entry is removed.
pub proof fn law_one_lock_guards_a_model(
    entries: Map<Seq<char>, Entry>,
    tag: Seq<char>,
    plan: PlanView,
    lock: u64,
    later_plan: PlanView,
    later_lock: u64,
)
    requires
        !entries.dom().contains(tag),
    ensures
        lock_of(with_entry(entries, tag, plan, lock)[tag]) == (if plan is Continuous {
            None
        } else {
            Some(lock)
        }),
        with_entry(with_entry(entries, tag, plan, lock), tag, later_plan, later_lock) == with_entry(
            entries,
            tag,
            plan,
            lock,
        ),
{
}

/// A model's entry is that of its plan. It keeps the first one, and other models are
/// not affected; a lock is used up exactly where a new entry has one.
pub proof fn law_entries_follow_plans(
    entries: Map<Seq<char>, Entry>,
    tag: Seq<char>,
    plan: BatchPlan,
    lock: u64,
)
    ensures
        ({
            let next = with_entry(entries, tag, plan@, lock);
            &&& next.dom().contains(tag)
            &&& next.remove(tag) == entries.remove(tag)
            &&& entries.dom().contains(tag) ==> next[tag] == entries[tag]
            &&& !entries.dom().contains(tag) && plan is Sequential ==> next[tag] == (
            Entry::Sequential { lock })
            &&& !entries.dom().contains(tag) && plan is Buffered ==> next[tag] == (
            Entry::Buffered { lock })
            &&& !entries.dom().contains(tag) && plan is Continuous ==> next[tag]
                == Entry::Continuous
            &&& next_lock_after(entries, tag, plan@, lock) == lock + (if !entries.dom().contains(
                tag,
            ) && !(plan is Continuous) {
                1int
            } else {
                0int
            })
        }),
{
    assert(with_entry(entries, tag, plan@, lock).remove(tag) =~= entries.remove(tag));
}

/// What is set up matches the entry: a lock for a new sequential model, a lock and an
/// empty accumulator with the plan's parameters and capacity for a new buffered one,
/// and nothing for a continuous model or one that is known.
pub proof fn law_set_up_matches_the_entry(
    created: Created,
    entries: Map<Seq<char>, Entry>,
    tag: Seq<char>,
    plan: BatchPlan,
    lock: u64,
)
    requires
        sets_up(created, entries, tag, plan, lock),
    ensures
        created is Nothing <==> entries.dom().contains(tag) || plan is Continuous,
        created is Lock <==> !entries.dom().contains(tag) && plan is Sequential,
        created is Worker <==> !entries.dom().contains(tag) && plan is Buffered,
        created matches Created::Lock(l) ==> lock_of(with_entry(entries, tag, plan@, lock)[tag])
            == Some(l),
        created matches Created::Worker(l, w) ==> lock_of(
            with_entry(entries, tag, plan@, lock)[tag],
        ) == Some(l) && (plan matches BatchPlan::Buffered { params, capacity } && w.batch_capacity()
            == capacity && w.batch_params()@ == params@) && w@.dom() == Set::<Seq<char>>::empty(),
{
    if let Created::Worker(l, w) = created {
        assert(w@.dom() =~= Set::<Seq<char>>::empty());
    }
}

/// A request goes into a queue as it came: with its inputs and acceleration, at the
/// time and under the ticket of its caller, with as many items as its longest batch
/// list.
pub proof fn law_queued_requests_keep_their_inputs(
    item: PredictItem,
    inputs: Inputs,
    acceleration: Acceleration,
    params: Set<Seq<char>>,
    counter: u64,
    now: u64,
    ticket: u64,
)
    requires
        is_item(item, inputs, acceleration, params, counter, now, ticket),
    ensures
        item.inputs@ == inputs@,
        item.acceleration == acceleration,
        item.enqueued == now,
        item.ticket == ticket,
        item.item_count >= 1,
        forall|name: Seq<char>| #[trigger]
            params.contains(name) && inputs@.dom().contains(name) ==> (
            inputs@[name] matches ValueView::List(items) ==> items.len() <= item.item_count),
        item.item_count > 1 ==> exists|name: Seq<char>| #[trigger]
            params.contains(name) && inputs@.dom().contains(name) && (
            inputs@[name] matches ValueView::List(items) && items.len() == item.item_count),
{
    batch::law_item_count_is_the_longest_list(item.item_count as nat, inputs@, params);
}

/// A request runs under its model's lock wherever the model has one: only a continuous
/// model's goes straight to the executor, a sequential model's takes the lock itself,
/// and a buffered model's is queued to the accumulator that holds it. Its inputs and
/// its acceleration reach the executor as they came.
pub proof fn law_routes_take_the_lock(
    route: Route,
    entry: Entry,
    inputs: Inputs,
    acceleration: Acceleration,
    params: Set<Seq<char>>,
    counter: u64,
    now: u64,
    ticket: u64,
)
    requires
        is_route(route, entry, inputs, acceleration, params, counter, now, ticket),
    ensures
        route is Direct <==> lock_of(entry) is None,
        route is Direct <==> entry is Continuous,
        route is Locked <==> entry is Sequential,
        route is Queued <==> entry is Buffered,
        match route {
            Route::Direct(i, a) => i == inputs && a == acceleration,
            Route::Locked(lock, i, a) => lock_of(entry) == Some(lock) && i == inputs && a
                == acceleration,
            Route::Queued(lock, item) => lock_of(entry) == Some(lock) && item.inputs == inputs
                && item.acceleration == acceleration && item.ticket == ticket && item.enqueued
                == now,
        },
{
}

} // verus!
