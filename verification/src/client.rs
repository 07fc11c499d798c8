//! Downloads: credentials, one transfer per destination, and progress lines.

use crate::tag_map::TagMap;
use vstd::prelude::*;

verus! {

/// How often progress is logged where there is no terminal, in milliseconds.
pub const PROGRESS_LOG_INTERVAL_MS: u64 = 5_000;

/// What a client of the prediction service is set up with.
#[derive(Debug)]
pub struct ServerClient {
    /// The key that it is bound to, if any.
    pub access_key: Option<String>,
    /// Where the service is, where that is not the usual place.
    pub url: Option<String>,
}

/// What a download that holds its destination's lock does.
#[derive(Clone, Copy, Debug, PartialEq, Eq, Structural)]
pub enum DownloadStep {
    /// The file is already in place.
    Present,
    /// Transfer, reporting to the caller.
    Reported,
    /// Transfer, presenting progress.
    Presented,
}

/// What a download does whose file exists or not, and whose caller reports
/// progress or not.
pub open spec fn step_of(exists: bool, has_callback: bool) -> DownloadStep {
    if exists {
        DownloadStep::Present
    } else if has_callback {
        DownloadStep::Reported
    } else {
        DownloadStep::Presented
    }
}

/// The key that a client is bound to: the model's own, or that of the process.
pub open spec fn key_of(key: Option<String>, process_key: Option<String>) -> Option<String> {
    match key {
        Some(k) => Some(k),
        None => process_key,
    }
}

impl ServerClient {
    /// A client bound to an access key: the model's own, or that of the process.
    pub fn with_key(
        key: Option<String>,
        process_key: Option<String>,
        url: Option<String>,
    ) -> (r: ServerClient)
        ensures
            r.access_key == key_of(key, process_key),
            r.url == url,
    {
        let access_key: Option<String> = match key {
            Some(k) => Some(k),
            None => process_key,
        };
        ServerClient { access_key, url }
    }

    /// What a download of any client does once it holds its destination's lock:
    /// one that lost the race finds the file in place, and a caller's own callback
    /// wins.
    pub fn download(&self, exists: bool, has_callback: bool) -> (r: DownloadStep)
        ensures
            r == step_of(exists, has_callback),
    {
        if exists {
            DownloadStep::Present
        } else if has_callback {
            DownloadStep::Reported
        } else {
            DownloadStep::Presented
        }
    }
}

/// A destination's lock, and how many downloads hold it or wait for it.
#[derive(Clone, Copy, Debug, PartialEq, Eq, Structural)]
pub struct PathLock {
    pub lock: u64,
    pub users: u64,
}

/// The locks after a download entered.
pub open spec fn after_enter(
    locks: Map<Seq<char>, PathLock>,
    path: Seq<char>,
    fresh: u64,
) -> Map<Seq<char>, PathLock> {
    if locks.dom().contains(path) {
        locks.insert(
            path,
            PathLock { lock: locks[path].lock, users: (locks[path].users + 1) as u64 },
        )
    } else {
        locks.insert(path, PathLock { lock: fresh, users: 1 })
    }
}

/// The locks after a download left: a lock without users is dropped.
pub open spec fn after_leave(
    locks: Map<Seq<char>, PathLock>,
    path: Seq<char>,
) -> Map<Seq<char>, PathLock> {
    if !locks.dom().contains(path) {
        locks
    } else if locks[path].users <= 1 {
        locks.remove(path)
    } else {
        locks.insert(
            path,
            PathLock { lock: locks[path].lock, users: (locks[path].users - 1) as u64 },
        )
    }
}

/// The lock that nothing uses any more once a download left.
pub open spec fn freed_lock(locks: Map<Seq<char>, PathLock>, path: Seq<char>) -> Option<u64> {
    if locks.dom().contains(path) && locks[path].users <= 1 {
        Some(locks[path].lock)
    } else {
        None
    }
}

/// Locks of downloads in flight, by destination path. Locks are named by
/// numbers.
pub struct DownloadLocks {
    locks: TagMap<PathLock>,
    fresh: u64,
}

impl View for DownloadLocks {
    type V = Map<Seq<char>, PathLock>;

    closed spec fn view(&self) -> Map<Seq<char>, PathLock> {
        self.locks@
    }
}

impl DownloadLocks {
    /// The number of the next lock.
    pub closed spec fn next_lock(&self) -> u64 {
        self.fresh
    }

    /// No two destinations share a lock, and every lock has a user.
    pub closed spec fn wf(&self) -> bool {
        &&& self.locks.wf()
        &&& forall|p: Seq<char>| #[trigger]
            self.locks@.dom().contains(p) ==> self.locks@[p].lock < self.fresh
                && self.locks@[p].users >= 1
        &&& forall|p: Seq<char>, q: Seq<char>|
            #![trigger self.locks@.dom().contains(p), self.locks@.dom().contains(q)]
            p != q && self.locks@.dom().contains(p) && self.locks@.dom().contains(q)
                ==> self.locks@[p].lock != self.locks@[q].lock
    }

    /// Locks of no download.
    pub fn new() -> (r: DownloadLocks)
        ensures
            r.wf(),
            r@ == Map::<Seq<char>, PathLock>::empty(),
            r.next_lock() == 0,
    {
        DownloadLocks { locks: TagMap::new(), fresh: 0 }
    }

    /// Whether a download can enter.
    pub fn has_room(&self, path: &str) -> (r: bool)
        requires
            self.wf(),
        ensures
            r == (self.next_lock() < u64::MAX && (self@.dom().contains(path@)
                ==> self@[path@].users < u64::MAX)),
    {
        let crowded: bool = match self.locks.get(path) {
            Some(held) => held.users == u64::MAX,
            None => false,
        };
        self.fresh < u64::MAX && !crowded
    }

    /// Enters a download; returns the lock that it has to hold.
    pub fn enter(&mut self, path: &str) -> (r: u64)
        requires
            old(self).wf(),
            old(self).next_lock() < u64::MAX,
            old(self)@.dom().contains(path@) ==> old(self)@[path@].users < u64::MAX,
        ensures
            final(self).wf(),
            final(self)@ == after_enter(old(self)@, path@, old(self).next_lock()),
            final(self)@[path@].lock == r,
            final(self).next_lock() == (if old(self)@.dom().contains(path@) {
                old(self).next_lock() as int
            } else {
                old(self).next_lock() + 1
            }),
    {
        let held: Option<PathLock> = match self.locks.get(path) {
            Some(held) => Some(*held),
            None => None,
        };
        match held {
            Some(PathLock { lock, users }) => {
                let replaced: Option<PathLock> = self.locks.insert(
                    path,
                    PathLock { lock, users: users + 1 },
                );
                lock
            },
            None => {
                let lock: u64 = self.fresh;
                self.fresh = lock + 1;
                let replaced: Option<PathLock> = self.locks.insert(path, PathLock { lock, users: 1 });
                lock
            },
        }
    }

    /// Leaves a download; returns the lock that nothing uses any more.
    pub fn leave(&mut self, path: &str) -> (r: Option<u64>)
        requires
            old(self).wf(),
        ensures
            final(self).wf(),
            final(self)@ == after_leave(old(self)@, path@),
            final(self).next_lock() == old(self).next_lock(),
            r == freed_lock(old(self)@, path@),
    {
        let held: Option<PathLock> = match self.locks.get(path) {
            Some(held) => Some(*held),
            None => None,
        };
        match held {
            Some(PathLock { lock, users }) => {
                if users <= 1 {
                    let removed: Option<PathLock> = self.locks.remove(path);
                    Some(lock)
                } else {
                    let replaced: Option<PathLock> = self.locks.insert(
                        path,
                        PathLock { lock, users: users - 1 },
                    );
                    None
                }
            },
            None => None,
        }
    }

    /// Downloads of different destinations do not wait for each other.
    pub proof fn law_destinations_are_independent(&self, p: Seq<char>, q: Seq<char>)
        requires
            self.wf(),
            self@.dom().contains(p),
            self@.dom().contains(q),
            p != q,
        ensures
            self@[p].lock != self@[q].lock,
    {
    }
}

/// Downloads of one destination share a lock for as long as one of them is in
/// flight: whoever enters while another has not left gets the same lock.
pub proof fn law_one_transfer_per_destination(
    locks: Map<Seq<char>, PathLock>,
    path: Seq<char>,
    fresh: u64,
    later: u64,
)
    requires
        locks.dom().contains(path) ==> 1 <= locks[path].users < u64::MAX - 1,
    ensures
        after_enter(after_enter(locks, path, fresh), path, later)[path].lock == after_enter(
            locks,
            path,
            fresh,
        )[path].lock,
        after_leave(after_enter(after_enter(locks, path, fresh), path, later), path)
            == after_enter(locks, path, fresh),
{
    let one = after_enter(locks, path, fresh);
    let two = after_enter(one, path, later);
    assert(after_leave(two, path) =~= one);
}

/// Once every download of a destination has left, its lock is gone.
pub proof fn law_locks_do_not_accumulate(
    locks: Map<Seq<char>, PathLock>,
    path: Seq<char>,
    fresh: u64,
)
    requires
        !locks.dom().contains(path),
    ensures
        after_leave(after_enter(locks, path, fresh), path) == locks,
{
    assert(after_leave(after_enter(locks, path, fresh), path) =~= locks);
}

/// Where a download stands.
pub enum Phase {
    /// It waits for its destination's lock.
    Waiting,
    /// It holds the lock and transfers.
    Transferring,
    /// It has its result: whether it succeeded.
    Finished(bool),
}

/// A download in flight.
pub struct Download {
    pub path: Seq<char>,
    /// The lock that it has to hold.
    pub lock: u64,
    pub phase: Phase,
}

/// Downloads in flight, by caller, and what they have brought about.
#[verifier::ext_equal]
pub struct Downloads {
    pub locks: Map<Seq<char>, PathLock>,
    /// The number of the next lock.
    pub fresh: u64,
    pub callers: Map<int, Download>,
    /// The files that are in place.
    pub files: Set<Seq<char>>,
    /// How many transfers to each destination have started.
    pub started: spec_fn(Seq<char>) -> nat,
    /// How many of them have failed or were abandoned.
    pub failed: spec_fn(Seq<char>) -> nat,
}

/// What happens to a download.
pub enum DownloadEvent {
    /// A caller enters with a destination.
    Enter(int, Seq<char>),
    /// A caller gets its destination's lock; with a progress callback or without.
    Turn(int, bool),
    /// A caller's transfer ends; successfully or not.
    End(int, bool),
    /// A caller leaves, with a result or because it was abandoned.
    Leave(int),
}

/// A count one higher at a path.
pub open spec fn counted_at(counts: spec_fn(Seq<char>) -> nat, path: Seq<char>) -> spec_fn(
    Seq<char>,
) -> nat {
    |p: Seq<char>|
        if p == path {
            counts(p) + 1
        } else {
            counts(p)
        }
}

/// Whether a caller transfers to a path.
pub open spec fn transfers(downloads: Downloads, caller: int, path: Seq<char>) -> bool {
    downloads.callers.dom().contains(caller) && downloads.callers[caller].path == path
        && downloads.callers[caller].phase is Transferring
}

/// The callers of a path.
pub open spec fn callers_of(downloads: Downloads, path: Seq<char>) -> Set<int> {
    downloads.callers.dom().filter(|c: int| downloads.callers[c].path == path)
}

/// Downloads with a caller in another phase.
pub open spec fn in_phase(downloads: Downloads, caller: int, phase: Phase) -> Downloads {
    Downloads {
        callers: downloads.callers.insert(
            caller,
            Download { phase, ..downloads.callers[caller] },
        ),
        ..downloads
    }
}

/// Whether an event can happen. A lock is granted only while nobody holds it.
pub open spec fn can_happen(downloads: Downloads, event: DownloadEvent) -> bool {
    match event {
        DownloadEvent::Enter(caller, path) => {
            &&& !downloads.callers.dom().contains(caller)
            &&& downloads.fresh < u64::MAX
            &&& downloads.locks.dom().contains(path) ==> downloads.locks[path].users < u64::MAX
        },
        DownloadEvent::Turn(caller, _) => {
            &&& downloads.callers.dom().contains(caller)
            &&& downloads.callers[caller].phase is Waiting
            &&& forall|other: int| #[trigger]
                downloads.callers.dom().contains(other) && downloads.callers[other].lock
                    == downloads.callers[caller].lock ==> !(
                downloads.callers[other].phase is Transferring)
        },
        DownloadEvent::End(caller, _) => {
            &&& downloads.callers.dom().contains(caller)
            &&& downloads.callers[caller].phase is Transferring
        },
        DownloadEvent::Leave(caller) => downloads.callers.dom().contains(caller),
    }
}

/// Downloads after an event.
pub open spec fn after_event(downloads: Downloads, event: DownloadEvent) -> Downloads {
    match event {
        DownloadEvent::Enter(caller, path) => {
            let locks = after_enter(downloads.locks, path, downloads.fresh);
            Downloads {
                locks,
                fresh: if downloads.locks.dom().contains(path) {
                    downloads.fresh
                } else {
                    (downloads.fresh + 1) as u64
                },
                callers: downloads.callers.insert(
                    caller,
                    Download { path, lock: locks[path].lock, phase: Phase::Waiting },
                ),
                ..downloads
            }
        },
        DownloadEvent::Turn(caller, has_callback) => {
            let path = downloads.callers[caller].path;
            if step_of(downloads.files.contains(path), has_callback) is Present {
                in_phase(downloads, caller, Phase::Finished(true))
            } else {
                Downloads {
                    started: counted_at(downloads.started, path),
                    ..in_phase(downloads, caller, Phase::Transferring)
                }
            }
        },
        DownloadEvent::End(caller, ok) => {
            let path = downloads.callers[caller].path;
            let ended = in_phase(downloads, caller, Phase::Finished(ok));
            if ok {
                Downloads { files: downloads.files.insert(path), ..ended }
            } else {
                Downloads { failed: counted_at(downloads.failed, path), ..ended }
            }
        },
        DownloadEvent::Leave(caller) => {
            let path = downloads.callers[caller].path;
            let left = Downloads {
                locks: after_leave(downloads.locks, path),
                callers: downloads.callers.remove(caller),
                ..downloads
            };
            if downloads.callers[caller].phase is Transferring {
                Downloads { failed: counted_at(downloads.failed, path), ..left }
            } else {
                left
            }
        },
    }
}

/// Before any download, with some files in place.
pub open spec fn no_downloads(files: Set<Seq<char>>) -> Downloads {
    Downloads {
        locks: Map::empty(),
        fresh: 0,
        callers: Map::empty(),
        files,
        started: |p: Seq<char>| 0nat,
        failed: |p: Seq<char>| 0nat,
    }
}

/// Downloads after events.
pub open spec fn after_events(files: Set<Seq<char>>, events: Seq<DownloadEvent>) -> Downloads
    decreases events.len(),
{
    if events.len() == 0 {
        no_downloads(files)
    } else {
        after_event(after_events(files, events.drop_last()), events.last())
    }
}

/// Whether events can happen one after another.
pub open spec fn all_happen(files: Set<Seq<char>>, events: Seq<DownloadEvent>) -> bool
    decreases events.len(),
{
    events.len() > 0 ==> all_happen(files, events.drop_last()) && can_happen(
        after_events(files, events.drop_last()),
        events.last(),
    )
}

/// Callers of a destination share its lock, which counts them.
spec fn locks_are_shared(downloads: Downloads) -> bool {
    &&& downloads.callers.dom().finite()
    &&& forall|path: Seq<char>| #[trigger]
        downloads.locks.dom().contains(path) ==> downloads.locks[path].users == callers_of(
            downloads,
            path,
        ).len()
    &&& forall|c: int| #[trigger]
        downloads.callers.dom().contains(c) ==> downloads.locks.dom().contains(
            downloads.callers[c].path,
        ) && downloads.locks[downloads.callers[c].path].lock == downloads.callers[c].lock
}

/// Every transfer that started has failed, but for one that is under way or has
/// put the file in place.
spec fn transfers_are_single(downloads: Downloads) -> bool {
    &&& forall|c: int, d: int, path: Seq<char>| #[trigger]
        transfers(downloads, c, path) && #[trigger] transfers(downloads, d, path) ==> c == d
    &&& forall|c: int, path: Seq<char>| #[trigger]
        transfers(downloads, c, path) ==> !downloads.files.contains(path) && (downloads.started)(
            path,
        ) == (downloads.failed)(path) + 1
    &&& forall|path: Seq<char>| #[trigger]
        (downloads.started)(path) <= (downloads.failed)(path) + 1
    &&& forall|path: Seq<char>|
        (forall|c: int| !transfers(downloads, c, path)) && !downloads.files.contains(path)
            ==> #[trigger] (downloads.started)(path) == (downloads.failed)(path)
    &&& forall|c: int| #[trigger]
        downloads.callers.dom().contains(c) && downloads.callers[c].phase == Phase::Finished(false)
            ==> (downloads.failed)(downloads.callers[c].path) >= 1
}

proof fn lemma_locks_stay_shared(downloads: Downloads, event: DownloadEvent)
    requires
        locks_are_shared(downloads),
        can_happen(downloads, event),
    ensures
        locks_are_shared(after_event(downloads, event)),
{
    let next = after_event(downloads, event);
    match event {
        DownloadEvent::Enter(caller, path) => {
            assert forall|p: Seq<char>| #[trigger] next.locks.dom().contains(p) implies next.locks[p].users
                == callers_of(next, p).len() by {
                if p == path {
                    assert(callers_of(next, p) =~= callers_of(downloads, p).insert(caller));
                    if !downloads.locks.dom().contains(p) {
                        assert(callers_of(downloads, p) =~= Set::<int>::empty());
                    }
                } else {
                    assert(callers_of(next, p) =~= callers_of(downloads, p));
                }
            }
        },
        DownloadEvent::Leave(caller) => {
            let path = downloads.callers[caller].path;
            let before = callers_of(downloads, path);
            assert(before.contains(caller));
            assert(callers_of(next, path) =~= before.remove(caller));
            assert forall|p: Seq<char>| #[trigger] next.locks.dom().contains(p) implies next.locks[p].users
                == callers_of(next, p).len() by {
                if p != path {
                    assert(callers_of(next, p) =~= callers_of(downloads, p));
                }
            }
            assert forall|c: int| #[trigger] next.callers.dom().contains(c) implies next.locks.dom().contains(
                next.callers[c].path,
            ) && next.locks[next.callers[c].path].lock == next.callers[c].lock by {
                assert(downloads.callers.dom().contains(c));
                if downloads.callers[c].path == path && downloads.locks[path].users <= 1 {
                    assert(callers_of(next, path).len() == 0);
                    assert(callers_of(next, path).contains(c));
                }
            }
        },
        DownloadEvent::Turn(caller, _) => {
            lemma_phase_keeps_callers(downloads, next, caller);
        },
        DownloadEvent::End(caller, _) => {
            lemma_phase_keeps_callers(downloads, next, caller);
        },
    }
}

/// A caller in another phase is a caller of the same destination.
proof fn lemma_phase_keeps_callers(downloads: Downloads, next: Downloads, caller: int)
    requires
        locks_are_shared(downloads),
        downloads.callers.dom().contains(caller),
        next.locks == downloads.locks,
        next.callers == downloads.callers.insert(
            caller,
            Download { phase: next.callers[caller].phase, ..downloads.callers[caller] },
        ),
    ensures
        locks_are_shared(next),
{
    assert(next.callers.dom() =~= downloads.callers.dom());
    assert forall|p: Seq<char>| callers_of(next, p) == callers_of(downloads, p) by {
        assert(callers_of(next, p) =~= callers_of(downloads, p));
    }
}

proof fn lemma_transfers_stay_single(downloads: Downloads, event: DownloadEvent)
    requires
        locks_are_shared(downloads),
        transfers_are_single(downloads),
        can_happen(downloads, event),
    ensures
        transfers_are_single(after_event(downloads, event)),
{
    let next = after_event(downloads, event);
    match event {
        DownloadEvent::Enter(caller, path) => {
            assert forall|d: int, p: Seq<char>| #[trigger] transfers(next, d, p) == transfers(
                downloads,
                d,
                p,
            ) by {}
            lemma_same_transfers(downloads, next);
        },
        DownloadEvent::Turn(caller, has_callback) => {
            let path = downloads.callers[caller].path;
            if downloads.files.contains(path) {
                assert forall|d: int, p: Seq<char>| #[trigger] transfers(next, d, p) == transfers(
                    downloads,
                    d,
                    p,
                ) by {}
                lemma_same_transfers(downloads, next);
            } else {
                assert forall|d: int| !transfers(downloads, d, path) by {
                    if transfers(downloads, d, path) {
                        assert(downloads.callers.dom().contains(d));
                        assert(downloads.callers[d].lock == downloads.callers[caller].lock);
                    }
                }
                assert((downloads.started)(path) == (downloads.failed)(path));
                assert forall|d: int, p: Seq<char>| #[trigger] transfers(next, d, p) == (transfers(
                    downloads,
                    d,
                    p,
                ) || (d == caller && p == path)) by {}
                assert(transfers(next, caller, path));
                assert forall|p: Seq<char>|
                    (forall|c: int| !transfers(next, c, p)) && !next.files.contains(
                        p,
                    ) implies #[trigger] (next.started)(p) == (next.failed)(p) by {
                    assert(!transfers(next, caller, p));
                    assert forall|c: int| !transfers(downloads, c, p) by {
                        assert(!transfers(next, c, p));
                    }
                    assert((downloads.started)(p) == (downloads.failed)(p));
                }
                assert forall|p: Seq<char>| #[trigger] (next.started)(p) <= (next.failed)(p) + 1 by {
                    assert((downloads.started)(p) <= (downloads.failed)(p) + 1);
                }
                assert forall|c: int, p: Seq<char>| #[trigger] transfers(
                    next,
                    c,
                    p,
                ) implies !next.files.contains(p) && (next.started)(p) == (next.failed)(p) + 1 by {
                    if p != path {
                        assert(transfers(downloads, c, p));
                    }
                }
            }
        },
        DownloadEvent::End(caller, ok) => {
            let path = downloads.callers[caller].path;
            assert(transfers(downloads, caller, path));
            assert forall|d: int, p: Seq<char>| #[trigger] transfers(next, d, p) == (transfers(
                downloads,
                d,
                p,
            ) && d != caller) by {}
            lemma_transfer_ends(downloads, next, caller);
        },
        DownloadEvent::Leave(caller) => {
            let path = downloads.callers[caller].path;
            assert forall|d: int, p: Seq<char>| #[trigger] transfers(next, d, p) == (transfers(
                downloads,
                d,
                p,
            ) && d != caller) by {}
            if downloads.callers[caller].phase is Transferring {
                assert(transfers(downloads, caller, path));
                lemma_transfer_ends(downloads, next, caller);
            } else {
                assert forall|p: Seq<char>| !transfers(downloads, caller, p) by {}
                lemma_same_transfers(downloads, next);
            }
        },
    }
}

/// Nothing changes for transfers that stay the same.
proof fn lemma_same_transfers(downloads: Downloads, next: Downloads)
    requires
        transfers_are_single(downloads),
        next.files == downloads.files,
        next.started == downloads.started,
        next.failed == downloads.failed,
        forall|d: int, p: Seq<char>| #[trigger]
            transfers(next, d, p) == transfers(downloads, d, p),
        forall|c: int| #[trigger]
            next.callers.dom().contains(c) && next.callers[c].phase == Phase::Finished(false)
                ==> downloads.callers.dom().contains(c) && downloads.callers[c].phase
                == Phase::Finished(false) && downloads.callers[c].path == next.callers[c].path,
    ensures
        transfers_are_single(next),
{
    assert forall|p: Seq<char>|
        (forall|c: int| !transfers(next, c, p)) && !next.files.contains(p) implies #[trigger] (
    next.started)(p) == (next.failed)(p) by {
        assert forall|c: int| !transfers(downloads, c, p) by {
            assert(!transfers(next, c, p));
        }
        assert((downloads.started)(p) == (downloads.failed)(p));
    }
    assert forall|c: int| #[trigger]
        next.callers.dom().contains(c) && next.callers[c].phase == Phase::Finished(
            false,
        ) implies (next.failed)(next.callers[c].path) >= 1 by {
        assert(downloads.callers.dom().contains(c));
    }
}

/// A transfer that ends has put the file in place or has failed.
proof fn lemma_transfer_ends(downloads: Downloads, next: Downloads, caller: int)
    requires
        transfers_are_single(downloads),
        downloads.callers.dom().contains(caller),
        transfers(downloads, caller, downloads.callers[caller].path),
        forall|d: int, p: Seq<char>| #[trigger]
            transfers(next, d, p) == (transfers(downloads, d, p) && d != caller),
        next.started == downloads.started,
        ({
            let path = downloads.callers[caller].path;
            ||| next.files == downloads.files.insert(path) && next.failed == downloads.failed
                && (next.callers.dom().contains(caller) ==> next.callers[caller].phase
                != Phase::Finished(false))
            ||| next.files == downloads.files && next.failed == counted_at(downloads.failed, path)
        }),
        forall|c: int| #[trigger]
            next.callers.dom().contains(c) ==> downloads.callers.dom().contains(c)
                && next.callers[c].path == downloads.callers[c].path && (c == caller
                || next.callers[c] == downloads.callers[c]),
    ensures
        transfers_are_single(next),
{
    let path = downloads.callers[caller].path;
    assert forall|d: int| !transfers(next, d, path) by {
        if transfers(next, d, path) {
            assert(transfers(downloads, d, path));
        }
    }
    assert((downloads.started)(path) == (downloads.failed)(path) + 1);
    assert forall|c: int, p: Seq<char>| #[trigger] transfers(
        next,
        c,
        p,
    ) implies !next.files.contains(p) && (next.started)(p) == (next.failed)(p) + 1 by {
        assert(transfers(downloads, c, p));
        assert(p != path);
    }
    assert forall|p: Seq<char>| #[trigger] (next.started)(p) <= (next.failed)(p) + 1 by {
        assert((downloads.started)(p) <= (downloads.failed)(p) + 1);
    }
    assert forall|p: Seq<char>|
        (forall|c: int| !transfers(next, c, p)) && !next.files.contains(p) implies #[trigger] (
    next.started)(p) == (next.failed)(p) by {
        if p != path {
            assert forall|c: int| !transfers(downloads, c, p) by {
                assert(!transfers(next, c, p));
            }
            assert((downloads.started)(p) == (downloads.failed)(p));
        }
    }
    assert forall|c: int| #[trigger]
        next.callers.dom().contains(c) && next.callers[c].phase == Phase::Finished(
            false,
        ) implies (next.failed)(next.callers[c].path) >= 1 by {
        assert(downloads.callers.dom().contains(c));
    }
}

/// A caller that succeeded finds its file in place, and a file that was not there
/// from the start was transferred.
spec fn results_hold(files: Set<Seq<char>>, downloads: Downloads) -> bool {
    &&& forall|c: int| #[trigger]
        downloads.callers.dom().contains(c) && downloads.callers[c].phase == Phase::Finished(true)
            ==> downloads.files.contains(downloads.callers[c].path)
    &&& forall|path: Seq<char>| #[trigger]
        downloads.files.contains(path) ==> files.contains(path) || (downloads.started)(path) >= 1
}

proof fn lemma_results_hold(
    files: Set<Seq<char>>,
    downloads: Downloads,
    event: DownloadEvent,
)
    requires
        results_hold(files, downloads),
        transfers_are_single(downloads),
        can_happen(downloads, event),
    ensures
        results_hold(files, after_event(downloads, event)),
{
    let next = after_event(downloads, event);
    if let DownloadEvent::End(caller, ok) = event {
        assert(transfers(downloads, caller, downloads.callers[caller].path));
    }
    assert forall|c: int| #[trigger]
        next.callers.dom().contains(c) && next.callers[c].phase == Phase::Finished(
            true,
        ) implies next.files.contains(next.callers[c].path) by {
        if downloads.callers.dom().contains(c) && downloads.callers[c].phase == Phase::Finished(
            true,
        ) {
            assert(downloads.files.contains(downloads.callers[c].path));
        }
    }
    assert forall|path: Seq<char>| #[trigger] next.files.contains(path) implies files.contains(path)
        || (next.started)(path) >= 1 by {
        if downloads.files.contains(path) {
            assert(files.contains(path) || (downloads.started)(path) >= 1);
        }
    }
}

proof fn lemma_downloads_hold(files: Set<Seq<char>>, events: Seq<DownloadEvent>)
    requires
        all_happen(files, events),
    ensures
        locks_are_shared(after_events(files, events)),
        transfers_are_single(after_events(files, events)),
        results_hold(files, after_events(files, events)),
    decreases events.len(),
{
    if events.len() > 0 {
        let before = after_events(files, events.drop_last());
        lemma_downloads_hold(files, events.drop_last());
        lemma_locks_stay_shared(before, events.last());
        lemma_transfers_stay_single(before, events.last());
        lemma_results_hold(files, before, events.last());
    }
}

/// One transfer per destination, over whole downloads of any number of clients:
/// callers enter and leave as `DownloadLocks` says, and on their turn do what
/// `ServerClient::download` says. Whatever order they do so in, at most one of
/// them transfers to a destination at a time, and none to a file that is in place;
/// a caller that has succeeded finds its file in place; and as long as no transfer
/// has failed or was abandoned, every caller that has a result has succeeded, and
/// at most one transfer has started: exactly one where the file was not there at
/// first.
pub proof fn law_downloads_are_single_flight(
    files: Set<Seq<char>>,
    events: Seq<DownloadEvent>,
    path: Seq<char>,
    a: int,
    b: int,
)
    requires
        all_happen(files, events),
    ensures
        ({
            let downloads = after_events(files, events);
            &&& transfers(downloads, a, path) && transfers(downloads, b, path) ==> a == b
            &&& transfers(downloads, a, path) ==> !downloads.files.contains(path)
            &&& (downloads.started)(path) <= (downloads.failed)(path) + 1
            &&& (downloads.failed)(path) == 0 && downloads.callers.dom().contains(a)
                && downloads.callers[a].path == path && downloads.callers[a].phase is Finished
                ==> {
                &&& downloads.callers[a].phase == Phase::Finished(true)
                &&& downloads.files.contains(path)
                &&& !files.contains(path) ==> (downloads.started)(path) == 1
            }
            &&& downloads.callers.dom().contains(a) && downloads.callers[a].path == path
                && downloads.callers[a].phase == Phase::Finished(true) ==> downloads.files.contains(
                path,
            )
        }),
{
    lemma_downloads_hold(files, events);
}

/// A caller that gets its turn with its file in place succeeds without a
/// transfer; one whose file is not there transfers, and reports to its caller
/// where that one asked for it.
pub proof fn law_present_files_are_not_transferred(
    downloads: Downloads,
    caller: int,
    has_callback: bool,
)
    requires
        can_happen(downloads, DownloadEvent::Turn(caller, has_callback)),
    ensures
        ({
            let path = downloads.callers[caller].path;
            let next = after_event(downloads, DownloadEvent::Turn(caller, has_callback));
            if downloads.files.contains(path) {
                next.callers[caller].phase == Phase::Finished(true) && next.started
                    == downloads.started
            } else {
                &&& transfers(next, caller, path)
                &&& has_callback ==> step_of(false, has_callback) is Reported
            }
        }),
{
}

/// Whether a progress line is due, by when the last one was logged.
pub open spec fn line_due(last_log_ms: u64, elapsed_ms: u64) -> bool {
    elapsed_ms >= last_log_ms + PROGRESS_LOG_INTERVAL_MS
}

/// When the last line was logged, once it was asked whether one is due.
pub open spec fn last_line(last_log_ms: u64, elapsed_ms: u64) -> u64 {
    if line_due(last_log_ms, elapsed_ms) {
        elapsed_ms
    } else {
        last_log_ms
    }
}

/// Throttle of progress lines.
#[derive(Clone, Copy, Debug)]
pub struct ProgressLog {
    /// When the last line was logged, in milliseconds.
    pub last_log_ms: u64,
}

impl ProgressLog {
    /// A throttle that has let nothing through.
    pub fn new() -> (r: ProgressLog)
        ensures
            r.last_log_ms == 0,
    {
        ProgressLog { last_log_ms: 0 }
    }

    /// Whether a line is due; if so, the throttle starts anew.
    pub fn due(&mut self, elapsed_ms: u64) -> (r: bool)
        ensures
            r == line_due(old(self).last_log_ms, elapsed_ms),
            final(self).last_log_ms == last_line(old(self).last_log_ms, elapsed_ms),
    {
        if elapsed_ms >= self.last_log_ms && elapsed_ms - self.last_log_ms
            >= PROGRESS_LOG_INTERVAL_MS {
            self.last_log_ms = elapsed_ms;
            true
        } else {
            false
        }
    }
}

/// A model's own key wins over that of the process, which is used where there is none.
pub proof fn law_own_keys_win(key: Option<String>, process_key: Option<String>)
    ensures
        key is Some ==> key_of(key, process_key) == key,
        key is None ==> key_of(key, process_key) == process_key,
{
}

/// A file that is in place is never transferred; one that is not always is, and its
/// caller gets the reports exactly where it asked for them.
pub proof fn law_steps_by_file_and_callback(exists: bool, has_callback: bool)
    ensures
        step_of(exists, has_callback) == DownloadStep::Present <==> exists,
        step_of(exists, has_callback) == DownloadStep::Reported <==> !exists && has_callback,
        step_of(exists, has_callback) == DownloadStep::Presented <==> !exists && !has_callback,
{
}

/// A download that enters counts as one more user of its destination's lock, and one that
/// leaves as one less; the last one takes the lock away. Other destinations are not
/// affected, and the lock of a destination does not change while it is used.
pub proof fn law_users_are_counted(locks: Map<Seq<char>, PathLock>, path: Seq<char>, fresh: u64)
    requires
        locks.dom().contains(path) ==> 1 <= locks[path].users < u64::MAX,
    ensures
        ({
            let entered = after_enter(locks, path, fresh);
            let left = after_leave(locks, path);
            &&& entered.dom().contains(path)
            &&& entered.remove(path) == locks.remove(path)
            &&& left.remove(path) == locks.remove(path)
            &&& locks.dom().contains(path) ==> entered[path].users == locks[path].users + 1
                && entered[path].lock == locks[path].lock
            &&& !locks.dom().contains(path) ==> entered[path].users == 1 && entered[path].lock
                == fresh
            &&& left.dom().contains(path) <==> locks.dom().contains(path) && locks[path].users > 1
            &&& left.dom().contains(path) ==> left[path].users + 1 == locks[path].users
                && left[path].lock == locks[path].lock
        }),
{
    assert(after_enter(locks, path, fresh).remove(path) =~= locks.remove(path));
    assert(after_leave(locks, path).remove(path) =~= locks.remove(path));
}

/// Progress lines are at least five seconds apart, and one is due once that has passed:
/// after a line, none is due before, and one is from there on. What was not logged does
/// not put the next line off.
pub proof fn law_lines_are_apart(last: u64, now: u64, later: u64)
    ensures
        line_due(last, now) <==> now >= last + 5_000,
        line_due(last, now) ==> (line_due(last_line(last, now), later) <==> later >= now + 5_000),
        !line_due(last, now) ==> last_line(last, now) == last,
{
}

/// A lock is given up exactly when the last download that uses it leaves, and it is the lock
/// of that destination.
pub proof fn law_last_user_frees_the_lock(locks: Map<Seq<char>, PathLock>, path: Seq<char>)
    requires
        locks.dom().contains(path) ==> locks[path].users >= 1,
    ensures
        freed_lock(locks, path) is Some <==> locks.dom().contains(path) && locks[path].users == 1,
        freed_lock(locks, path) is Some <==> locks.dom().contains(path) && !after_leave(
            locks,
            path,
        ).dom().contains(path),
        freed_lock(locks, path) matches Some(lock) ==> lock == locks[path].lock,
{
}

} // verus!
