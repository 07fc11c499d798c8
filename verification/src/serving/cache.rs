//! Cached-tier tracker: the disk half of the warmth ladder.
//!
//! A model is cached when its resources are complete on disk with no engine
//! loaded. The tracker remembers the outcome of every download and reports it.

use super::download_gate::DownloadGate;
use crate::tag_map::TagMap;
use vstd::prelude::*;

verus! {

/// A failed attempt is not repeated until this has elapsed, in nanoseconds, so
/// that a goal asserted again and again cannot hot-loop downloads.
pub const FAILED_RETRY_BACKOFF: u64 = 60_000_000_000;

/// Disk state of one tag.
#[derive(Debug)]
pub enum CacheState {
    /// Resource download in progress.
    Caching,
    /// Resources complete on disk.
    Cached,
    /// The last attempt failed; retried after a backoff.
    Failed { error: String, at: u64 },
}

impl Clone for CacheState {
    fn clone(&self) -> (r: Self)
        ensures
            r == *self,
    {
        match self {
            CacheState::Caching => CacheState::Caching,
            CacheState::Cached => CacheState::Cached,
            CacheState::Failed { error, at } => CacheState::Failed {
                error: error.clone(),
                at: *at,
            },
        }
    }
}

/// Whether a cache request may wait behind process-tier loads.
#[derive(Clone, Copy, Debug, PartialEq, Eq, Structural)]
pub enum CachePriority {
    /// Process-tier tag: start now.
    Immediate,
    /// Disk-tier prefetch: wait until no process-tier download is in flight.
    Prefetch,
}

/// Whether a failure is too recent to try again.
pub open spec fn cooling_down(at: u64, now: u64) -> bool {
    now - at < FAILED_RETRY_BACKOFF
}

/// Whether a request for a tag starts a download.
pub open spec fn starts_download(
    states: Map<Seq<char>, CacheState>,
    tag: Seq<char>,
    now: u64,
) -> bool {
    if states.dom().contains(tag) {
        match states[tag] {
            CacheState::Caching => false,
            CacheState::Cached => false,
            CacheState::Failed { at, .. } => !cooling_down(at, now),
        }
    } else {
        true
    }
}

/// The states after a request for a tag.
pub open spec fn after_request(
    states: Map<Seq<char>, CacheState>,
    tag: Seq<char>,
    now: u64,
) -> Map<Seq<char>, CacheState> {
    if starts_download(states, tag, now) {
        states.insert(tag, CacheState::Caching)
    } else {
        states
    }
}

/// The state that the end of a download leads to.
pub open spec fn download_end(outcome: Result<(), String>, now: u64) -> CacheState {
    match outcome {
        Ok(_) => CacheState::Cached,
        Err(error) => CacheState::Failed { error, at: now },
    }
}

/// The states after a failed record of a tag was dropped.
pub open spec fn after_forget(
    states: Map<Seq<char>, CacheState>,
    tag: Seq<char>,
) -> Map<Seq<char>, CacheState> {
    if states.dom().contains(tag) && states[tag] is Failed {
        states.remove(tag)
    } else {
        states
    }
}

/// Whether a requested download may start while some priority downloads are in
/// flight.
pub open spec fn may_start(priority: CachePriority, inflight: nat) -> bool {
    priority == CachePriority::Immediate || inflight == 0
}

/// Whether a list holds every tag of a map once, with its state.
pub open spec fn lists_states(
    list: Seq<(String, CacheState)>,
    states: Map<Seq<char>, CacheState>,
) -> bool {
    &&& forall|i: int|
        0 <= i < list.len() ==> states.dom().contains((#[trigger] list[i]).0@)
            && states[list[i].0@] == list[i].1
    &&& forall|i: int, j: int|
        0 <= i < j < list.len() ==> (#[trigger] list[i]).0@ != (#[trigger] list[j]).0@
    &&& forall|tag: Seq<char>| #[trigger]
        states.dom().contains(tag) ==> exists|i: int|
            0 <= i < list.len() && (#[trigger] list[i]).0@ == tag
}

/// Tracks which tags have complete resources on disk.
pub struct CacheTracker {
    states: TagMap<CacheState>,
}

impl View for CacheTracker {
    type V = Map<Seq<char>, CacheState>;

    closed spec fn view(&self) -> Map<Seq<char>, CacheState> {
        self.states@
    }
}

impl CacheTracker {
    pub closed spec fn wf(&self) -> bool {
        self.states.wf()
    }

    /// A tracker that knows no tag.
    pub fn new() -> (r: CacheTracker)
        ensures
            r.wf(),
            r@ == Map::<Seq<char>, CacheState>::empty(),
    {
        CacheTracker { states: TagMap::new() }
    }

    /// Requests that a tag's resources be on disk; returns whether a download
    /// starts. A tag that is caching or cached is left alone, and a failed one
    /// is tried again only after the backoff.
    pub fn ensure_cached(&mut self, tag: &str, now: u64) -> (r: bool)
        requires
            old(self).wf(),
        ensures
            final(self).wf(),
            r == starts_download(old(self)@, tag@, now),
            final(self)@ == after_request(old(self)@, tag@, now),
    {
        let start: bool = match self.states.get(tag) {
            Some(CacheState::Caching) => false,
            Some(CacheState::Cached) => false,
            Some(CacheState::Failed { at, .. }) => *at <= now && now - *at >= FAILED_RETRY_BACKOFF,
            None => true,
        };
        if start {
            let replaced: Option<CacheState> = self.states.insert(tag, CacheState::Caching);
        }
        start
    }

    /// Records how a download ended.
    pub fn finish_download(&mut self, tag: &str, outcome: Result<(), String>, now: u64)
        requires
            old(self).wf(),
        ensures
            final(self).wf(),
            final(self)@ == old(self)@.insert(tag@, download_end(outcome, now)),
    {
        let state: CacheState = match outcome {
            Ok(_) => CacheState::Cached,
            Err(error) => CacheState::Failed { error, at: now },
        };
        let replaced: Option<CacheState> = self.states.insert(tag, state);
    }

    /// Drops a failed record and returns whether there was one. A cached record
    /// is kept: its resources are on disk, whatever the goal.
    pub fn forget_failed(&mut self, tag: &str) -> (r: bool)
        requires
            old(self).wf(),
        ensures
            final(self).wf(),
            r == (old(self)@.dom().contains(tag@) && old(self)@[tag@] is Failed),
            final(self)@ == after_forget(old(self)@, tag@),
    {
        let failed: bool = match self.states.get(tag) {
            Some(CacheState::Failed { .. }) => true,
            _ => false,
        };
        if failed {
            let removed: Option<CacheState> = self.states.remove(tag);
        }
        failed
    }

    /// The state of a tag.
    pub fn state(&self, tag: &str) -> (r: Option<&CacheState>)
        requires
            self.wf(),
        ensures
            r == (if self@.dom().contains(tag@) {
                Some(&self@[tag@])
            } else {
                None
            }),
    {
        self.states.get(tag)
    }

    /// Every tracked tag with its state.
    pub fn snapshot(&self) -> (r: Vec<(String, CacheState)>)
        requires
            self.wf(),
        ensures
            lists_states(r@, self@),
    {
        let mut out: Vec<(String, CacheState)> = Vec::new();
        let mut i: usize = 0;
        proof {
            self.states.lemma_tags();
        }
        let ghost tags = self.states.tags();
        while i < self.states.len()
            invariant
                self.wf(),
                tags == self.states.tags(),
                i <= tags.len(),
                out@.len() == i,
                forall|j: int|
                    0 <= j < i ==> (#[trigger] out@[j]).0@ == tags[j] && self@.dom().contains(
                        tags[j],
                    ) && out@[j].1 == self@[tags[j]],
            decreases tags.len() - i,
        {
            let tag: String = self.states.tag_at(i).to_owned();
            let state: CacheState = self.states.value_at(i).clone();
            out.push((tag, state));
            i = i + 1;
        }
        proof {
            assert forall|tag: Seq<char>| #[trigger] self@.dom().contains(tag) implies exists|i: int|
                0 <= i < out@.len() && (#[trigger] out@[i]).0@ == tag by {
                assert(tags.to_set().contains(tag));
                let j = choose|j: int| 0 <= j < tags.len() && tags[j] == tag;
                assert(out@[j].0@ == tag);
            }
        }
        out
    }
}

/// Whether a requested download may start now: a prefetch waits until no
/// priority download is in flight.
pub fn may_download(priority: CachePriority, gate: &DownloadGate) -> (r: bool)
    ensures
        r == may_start(priority, gate@),
{
    match priority {
        CachePriority::Immediate => true,
        CachePriority::Prefetch => gate.is_idle(),
    }
}

/// Downloads are single-flight: once a request has started one, or found one
/// done, no further request starts another before it has ended in failure.
pub proof fn law_single_flight(
    states: Map<Seq<char>, CacheState>,
    tag: Seq<char>,
    now: u64,
    later: u64,
)
    requires
        !(states.dom().contains(tag) && states[tag] is Failed && !starts_download(
            states,
            tag,
            now,
        )),
    ensures
        !starts_download(after_request(states, tag, now), tag, later),
        after_request(after_request(states, tag, now), tag, later) == after_request(
            states,
            tag,
            now,
        ),
{
}

/// A failed tag is not tried again within the backoff, and is after it.
pub proof fn law_failure_backs_off(
    states: Map<Seq<char>, CacheState>,
    tag: Seq<char>,
    error: String,
    at: u64,
    now: u64,
)
    ensures
        starts_download(
            states.insert(tag, CacheState::Failed { error, at }),
            tag,
            now,
        ) <==> now >= at + FAILED_RETRY_BACKOFF,
{
}

/// A request for one tag leaves every other tag as it is.
pub proof fn law_request_touches_one_tag(
    states: Map<Seq<char>, CacheState>,
    tag: Seq<char>,
    now: u64,
    other: Seq<char>,
)
    requires
        other != tag,
    ensures
        after_request(states, tag, now).dom().contains(other) == states.dom().contains(other),
        states.dom().contains(other) ==> after_request(states, tag, now)[other] == states[other],
{
}

/// A request starts a download exactly where none was tried, or the last one failed a
/// minute ago or longer. The tag is tracked afterwards in any case; what is caching or
/// cached stays so, and a failure stays visible until it is tried again.
pub proof fn law_requests_are_tracked(states: Map<Seq<char>, CacheState>, tag: Seq<char>, now: u64)
    ensures
        ({
            let starts = starts_download(states, tag, now);
            let next = after_request(states, tag, now);
            &&& starts <==> (states.dom().contains(tag) ==> (
            states[tag] matches CacheState::Failed { at, .. } && at + 60_000_000_000 <= now))
            &&& next.dom().contains(tag)
            &&& starts ==> next[tag] == CacheState::Caching
            &&& !starts ==> next == states
        }),
{
}

/// A download that succeeds leaves the tag cached, and one that fails leaves its error and
/// its time. After a success no request downloads again; after a failure none does for a
/// minute, and one does then.
pub proof fn law_downloads_end_as_they_went(
    states: Map<Seq<char>, CacheState>,
    tag: Seq<char>,
    outcome: Result<(), String>,
    now: u64,
    later: u64,
)
    ensures
        outcome is Ok <==> download_end(outcome, now) is Cached,
        outcome matches Err(e) ==> (download_end(outcome, now) matches CacheState::Failed {
            error,
            at,
        } && error == e && at == now),
        starts_download(states.insert(tag, download_end(outcome, now)), tag, later) <==> outcome
            is Err && later >= now + 60_000_000_000,
{
}

/// Only a failure is forgotten: what is caching or cached stays, and other tags do.
pub proof fn law_only_failures_are_forgotten(states: Map<Seq<char>, CacheState>, tag: Seq<char>)
    ensures
        after_forget(states, tag).remove(tag) == states.remove(tag),
        after_forget(states, tag).dom().contains(tag) <==> states.dom().contains(tag)
            && !(states[tag] is Failed),
        after_forget(states, tag).dom().contains(tag) ==> after_forget(states, tag)[tag]
            == states[tag],
{
    assert(after_forget(states, tag).remove(tag) =~= states.remove(tag));
}

/// A download for a loaded engine never waits, and a prefetch waits exactly as long as one
/// of those is in flight.
pub proof fn law_prefetches_wait(inflight: nat)
    ensures
        may_start(CachePriority::Immediate, inflight),
        may_start(CachePriority::Prefetch, inflight) <==> inflight == 0,
{
}

} // verus!
