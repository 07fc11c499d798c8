//! Process-tier downloads run ahead of disk-tier prefetch.
//!
//! Every download on a node shares one disk budget, so a prefetch waits until
//! no priority download is in flight. Whoever starts a priority load enters the
//! gate before the load's task starts, so that a prefetch requested later in
//! the same pass cannot overtake it.

use vstd::prelude::*;

verus! {

/// Counts priority downloads in flight.
#[derive(Debug)]
pub struct DownloadGate {
    inflight: usize,
}

impl View for DownloadGate {
    type V = nat;

    closed spec fn view(&self) -> nat {
        self.inflight as nat
    }
}

impl DownloadGate {
    /// A gate without downloads.
    pub fn new() -> (r: DownloadGate)
        ensures
            r@ == 0,
    {
        DownloadGate { inflight: 0 }
    }

    /// Registers a priority download.
    pub fn enter_priority(&mut self)
        requires
            old(self)@ < usize::MAX,
        ensures
            final(self)@ == old(self)@ + 1,
    {
        self.inflight = self.inflight + 1;
    }

    /// Releases one priority download.
    pub fn leave_priority(&mut self)
        ensures
            final(self)@ == left(old(self)@),
    {
        self.inflight = self.inflight.saturating_sub(1);
    }

    /// Whether no priority download is in flight.
    pub fn is_idle(&self) -> (r: bool)
        ensures
            r == (self@ == 0),
    {
        self.inflight == 0
    }

    /// Number of priority downloads in flight.
    pub fn inflight(&self) -> (r: usize)
        ensures
            r == self@,
    {
        self.inflight
    }
}

/// The count after a download has left.
pub open spec fn left(count: nat) -> nat {
    if count > 0 {
        (count - 1) as nat
    } else {
        0
    }
}

/// The count after downloads have entered (`true`) and left (`false`).
pub open spec fn count_after(events: Seq<bool>) -> nat
    decreases events.len(),
{
    if events.len() == 0 {
        0
    } else if events.last() {
        count_after(events.drop_last()) + 1
    } else {
        left(count_after(events.drop_last()))
    }
}

/// How often something happened.
pub open spec fn occurrences(events: Seq<bool>, event: bool) -> nat
    decreases events.len(),
{
    if events.len() == 0 {
        0
    } else {
        occurrences(events.drop_last(), event) + (if events.last() == event {
            1nat
        } else {
            0nat
        })
    }
}

/// Where no download leaves that has not entered, the count is that of the
/// downloads that have entered and not left; a prefetch may start only once
/// every one has left.
pub proof fn law_every_download_must_leave(events: Seq<bool>)
    requires
        forall|n: int|
            0 <= n <= events.len() ==> occurrences(#[trigger] events.take(n), false)
                <= occurrences(events.take(n), true),
    ensures
        count_after(events) == occurrences(events, true) - occurrences(events, false),
        count_after(events) == 0 <==> occurrences(events, true) == occurrences(events, false),
    decreases events.len(),
{
    assert(events.take(events.len() as int) =~= events);
    if events.len() > 0 {
        let before = events.drop_last();
        assert forall|n: int| 0 <= n <= before.len() implies occurrences(
            #[trigger] before.take(n),
            false,
        ) <= occurrences(before.take(n), true) by {
            assert(before.take(n) =~= events.take(n));
        }
        law_every_download_must_leave(before);
    }
}

/// A download that leaves gives back exactly what it took when it entered, and a gate
/// without downloads stays empty.
pub proof fn law_leaving_undoes_entering(count: nat)
    ensures
        left(count + 1) == count,
        left(0) == 0,
        left(count) <= count,
{
}

} // verus!
