//! KV event relay: from an engine's publisher to the control plane.
//!
//! One relay runs per ready model. It tracks the continuity of the engine's
//! stream, gathers events over a flush window and posts them. It fails softly:
//! what cannot be posted is dropped, and repaired by a later snapshot.

use crate::inputs::NameSet;
use crate::json;
use crate::json::{json_as_array, json_as_bool, json_as_str, json_from_slice, json_get};
use crate::prediction::{Prediction, PredictionView};
use crate::text;
use crate::text::{joined, same_text};
use crate::value::{slice_json, Value, ValueView};
use serde_json::Value as JsonValue;
use vstd::prelude::*;

verus! {

/// How often the supervisor looks for models, in nanoseconds.
pub const SCAN_INTERVAL: u64 = 5_000_000_000;

/// An engine that is silent this long is reconnected to, in nanoseconds; a
/// rejoin brings a snapshot, which repairs any missed events.
pub const RECV_TIMEOUT: u64 = 60_000_000_000;

/// Wait after a failed connect or subscribe, in nanoseconds.
pub const RETRY_DELAY: u64 = 5_000_000_000;

/// Wait after the plane rejects the route, in nanoseconds.
pub const NOT_FOUND_BACKOFF: u128 = 60_000_000_000;

/// The number that bytes write, most significant first.
pub open spec fn big_endian(bytes: Seq<u8>) -> nat
    decreases bytes.len(),
{
    if bytes.len() == 0 {
        0
    } else {
        big_endian(bytes.drop_last()) * 256 + bytes.last() as nat
    }
}

/// Reads eight bytes as a number, most significant first.
fn read_be64(b: &Vec<u8>) -> (r: u64)
    requires
        b@.len() == 8,
    ensures
        r == big_endian(b@),
{
    let mut n: u64 = 0;
    let mut i: usize = 0;
    let ghost mut limit: nat = 1;
    while i < 8
        invariant
            i <= 8,
            b@.len() == 8,
            n == big_endian(b@.take(i as int)),
            n < limit,
            i == 0 ==> limit == 1,
            i == 1 ==> limit == 0x100,
            i == 2 ==> limit == 0x1_0000,
            i == 3 ==> limit == 0x100_0000,
            i == 4 ==> limit == 0x1_0000_0000,
            i == 5 ==> limit == 0x100_0000_0000,
            i == 6 ==> limit == 0x1_0000_0000_0000,
            i == 7 ==> limit == 0x100_0000_0000_0000,
            i == 8 ==> limit == 0x1_0000_0000_0000_0000,
        decreases 8 - i,
    {
        assert(b@.take(i + 1).drop_last() =~= b@.take(i as int));
        n = n * 256 + b[i] as u64;
        proof {
            limit = limit * 256;
        }
        i = i + 1;
    }
    assert(b@.take(8) =~= b@);
    n
}

/// Frames of a message, seen as bytes.
pub open spec fn frame_views(frames: Seq<Vec<u8>>) -> Seq<Seq<u8>> {
    frames.map_values(|f: Vec<u8>| f@)
}

/// What a message says: a sequence number and a JSON payload. A message has
/// three frames: the topic `kv`, the number in eight bytes, and the payload.
pub open spec fn message_of(frames: Seq<Seq<u8>>) -> Option<(u64, JsonValue)> {
    if frames.len() == 3 && frames[0] == seq![0x6bu8, 0x76u8] && frames[1].len() == 8 {
        match json::json_value_of(frames[2]) {
            Some(payload) => Some((big_endian(frames[1]) as u64, payload)),
            None => None,
        }
    } else {
        None
    }
}

/// Decodes one message.
pub fn parse_message(frames: &Vec<Vec<u8>>) -> (r: Option<(u64, JsonValue)>)
    ensures
        r == message_of(frame_views(frames@)),
{
    let ghost views = frame_views(frames@);
    if frames.len() != 3 {
        return None;
    }
    let topic: &Vec<u8> = &frames[0];
    assert(views[0] == topic@);
    if topic.len() != 2 || topic[0] != 0x6b || topic[1] != 0x76 {
        return None;
    }
    assert(topic@ =~= seq![0x6bu8, 0x76u8]);
    if frames[1].len() != 8 {
        return None;
    }
    let number: u64 = read_be64(&frames[1]);
    match json_from_slice(frames[2].as_slice()) {
        Some(payload) => Some((number, payload)),
        None => None,
    }
}

/// A member of a payload.
pub open spec fn field_str(payload: JsonValue, key: Seq<char>) -> Option<Seq<char>> {
    match json::json_field(payload, key) {
        Some(v) => json::json_str(v),
        None => None,
    }
}

/// The epoch of a payload; empty where there is none.
pub open spec fn payload_epoch(payload: JsonValue) -> Seq<char> {
    match field_str(payload, "epoch"@) {
        Some(s) => s,
        None => Seq::empty(),
    }
}

/// Whether a payload is a snapshot.
pub open spec fn payload_snapshot(payload: JsonValue) -> bool {
    match json::json_field(payload, "snapshot"@) {
        Some(v) => json::json_bool(v) == Some(true),
        None => false,
    }
}

/// The events of a payload.
pub open spec fn payload_events(payload: JsonValue) -> Seq<JsonValue> {
    match json::json_field(payload, "events"@) {
        Some(v) => match json::json_array(v) {
            Some(events) => events,
            None => Seq::empty(),
        },
        None => Seq::empty(),
    }
}

/// One message of the engine's stream.
#[derive(Debug)]
pub struct KvMessage {
    pub seq: u64,
    pub epoch: String,
    pub snapshot: bool,
    pub events: Vec<JsonValue>,
}

/// Whether a message is what a number and a payload say.
pub open spec fn is_message(m: KvMessage, seq: u64, payload: JsonValue) -> bool {
    &&& m.seq == seq
    &&& m.epoch@ == payload_epoch(payload)
    &&& m.snapshot == payload_snapshot(payload)
    &&& m.events@ == payload_events(payload)
}

/// Reads a payload.
pub fn read_payload(seq: u64, payload: &JsonValue) -> (r: KvMessage)
    ensures
        is_message(r, seq, *payload),
{
    let epoch: String = match json_get(payload, "epoch") {
        Some(v) => match json_as_str(v) {
            Some(s) => s.to_owned(),
            None => String::new(),
        },
        None => String::new(),
    };
    let snapshot: bool = match json_get(payload, "snapshot") {
        Some(v) => match json_as_bool(v) {
            Some(b) => b,
            None => false,
        },
        None => false,
    };
    let events: Vec<JsonValue> = match json_get(payload, "events") {
        Some(v) => match json_as_array(v) {
            Some(items) => {
                let copy: Vec<JsonValue> = slice_json(items, 0, items.len());
                assert(copy@ =~= items@);
                copy
            },
            None => Vec::new(),
        },
        None => Vec::new(),
    };
    assert(epoch@ =~= payload_epoch(*payload));
    assert(events@ =~= payload_events(*payload));
    KvMessage { seq, epoch, snapshot, events }
}

/// Stream-continuity tracker: state is trusted only while the stream is
/// provably continuous.
#[derive(Debug)]
pub struct Continuity {
    epoch: Option<String>,
    last_seq: Option<u64>,
}

/// The epoch and last number of a stream.
#[verifier::ext_equal]
pub struct ContinuityView {
    pub epoch: Option<Seq<char>>,
    pub last_seq: Option<u64>,
}

impl View for Continuity {
    type V = ContinuityView;

    closed spec fn view(&self) -> ContinuityView {
        ContinuityView { epoch: text::text_option(self.epoch), last_seq: self.last_seq }
    }
}

/// What a message does to a stream.
#[derive(Clone, Copy, Debug, PartialEq, Eq, Structural)]
pub enum Admit {
    /// Snapshot: reset buffered state, then apply.
    Snapshot,
    /// Contiguous delta: append.
    Delta,
    /// Discontinuity: reconnect for a snapshot.
    Gap,
}

/// Whether a stream may be of an epoch: it is, or none is known.
pub open spec fn epoch_fits(stream: ContinuityView, epoch: Seq<char>) -> bool {
    match stream.epoch {
        Some(e) => e == epoch,
        None => true,
    }
}

/// Whether a number follows a stream: it is one after the last, or none is known.
pub open spec fn seq_fits(stream: ContinuityView, seq: u64) -> bool {
    match stream.last_seq {
        Some(last) => seq == last + 1,
        None => true,
    }
}

/// Whether a message can be judged: the last number has a successor.
pub open spec fn can_judge(stream: ContinuityView, epoch: Seq<char>, snapshot: bool) -> bool {
    snapshot || !epoch_fits(stream, epoch) || stream.last_seq != Some(u64::MAX)
}

/// How a message is admitted.
pub open spec fn admitted(
    stream: ContinuityView,
    epoch: Seq<char>,
    seq: u64,
    snapshot: bool,
) -> Admit {
    if snapshot {
        Admit::Snapshot
    } else if epoch_fits(stream, epoch) && seq_fits(stream, seq) {
        Admit::Delta
    } else {
        Admit::Gap
    }
}

/// The stream after a message.
pub open spec fn stream_after(
    stream: ContinuityView,
    epoch: Seq<char>,
    seq: u64,
    snapshot: bool,
) -> ContinuityView {
    if admitted(stream, epoch, seq, snapshot) == Admit::Gap {
        stream
    } else {
        ContinuityView { epoch: Some(epoch), last_seq: Some(seq) }
    }
}

impl Default for Continuity {
    fn default() -> (r: Continuity)
        ensures
            r@ == (ContinuityView { epoch: None, last_seq: None }),
    {
        Continuity { epoch: None, last_seq: None }
    }
}

impl Continuity {
    /// Judges a message: a snapshot re-baselines the stream unconditionally, a
    /// delta must be of the same epoch and directly follow.
    pub fn accept(&mut self, epoch: &str, seq: u64, snapshot: bool) -> (r: Admit)
        requires
            can_judge(old(self)@, epoch@, snapshot),
        ensures
            r == admitted(old(self)@, epoch@, seq, snapshot),
            final(self)@ == stream_after(old(self)@, epoch@, seq, snapshot),
    {
        if snapshot {
            self.epoch = Some(epoch.to_owned());
            self.last_seq = Some(seq);
            return Admit::Snapshot;
        }
        let same_epoch: bool = match &self.epoch {
            Some(e) => same_text(e.as_str(), epoch),
            None => true,
        };
        if !same_epoch {
            return Admit::Gap;
        }
        let follows: bool = match self.last_seq {
            Some(last) => seq == last + 1,
            None => true,
        };
        if !follows {
            return Admit::Gap;
        }
        self.epoch = Some(epoch.to_owned());
        self.last_seq = Some(seq);
        Admit::Delta
    }

    /// Tests whether a message can be judged.
    pub fn can_accept(&self, epoch: &str, snapshot: bool) -> (r: bool)
        ensures
            r == can_judge(self@, epoch@, snapshot),
    {
        let same_epoch: bool = match &self.epoch {
            Some(e) => same_text(e.as_str(), epoch),
            None => true,
        };
        let last: bool = match self.last_seq {
            Some(last) => last == u64::MAX,
            None => false,
        };
        snapshot || !same_epoch || !last
    }
}

/// A delta is admitted only where the stream is continuous: same epoch, and
/// numbers without a gap.
pub proof fn law_deltas_are_contiguous(
    stream: ContinuityView,
    epoch: Seq<char>,
    seq: u64,
)
    requires
        stream.epoch is Some,
        stream.last_seq is Some,
    ensures
        admitted(stream, epoch, seq, false) == Admit::Delta <==> stream.epoch == Some(epoch) && seq
            == stream.last_seq->0 + 1,
{
}

/// A snapshot re-baselines any stream: the next number of its epoch follows.
pub proof fn law_snapshot_rebaselines(
    stream: ContinuityView,
    epoch: Seq<char>,
    seq: u64,
)
    requires
        seq < u64::MAX,
    ensures
        admitted(stream, epoch, seq, true) == Admit::Snapshot,
        admitted(
            stream_after(stream, epoch, seq, true),
            epoch,
            (seq + 1) as u64,
            false,
        ) == Admit::Delta,
{
}

/// Events that wait for the next flush.
#[derive(Debug)]
pub struct Pending {
    events: Vec<JsonValue>,
    seq_range: Option<(u64, u64)>,
    snapshot: bool,
}

/// Events that wait, the numbers of the messages they came in, and whether
/// they begin with a snapshot.
#[verifier::ext_equal]
pub struct PendingView {
    pub events: Seq<JsonValue>,
    pub seq_range: Option<(u64, u64)>,
    pub snapshot: bool,
}

impl View for Pending {
    type V = PendingView;

    closed spec fn view(&self) -> PendingView {
        PendingView {
            events: self.events@,
            seq_range: self.seq_range,
            snapshot: self.snapshot,
        }
    }
}

/// Nothing waits.
pub open spec fn nothing_pending() -> PendingView {
    PendingView { events: Seq::empty(), seq_range: None, snapshot: false }
}

impl Default for Pending {
    fn default() -> (r: Pending)
        ensures
            r@ == nothing_pending(),
    {
        Pending { events: Vec::new(), seq_range: None, snapshot: false }
    }
}

/// What waits after a message was admitted: a snapshot supersedes what waited,
/// a delta is appended.
pub open spec fn pending_after(
    pending: PendingView,
    verdict: Admit,
    seq: u64,
    events: Seq<JsonValue>,
) -> PendingView {
    match verdict {
        Admit::Snapshot => PendingView { events, seq_range: Some((seq, seq)), snapshot: true },
        Admit::Delta => PendingView {
            events: pending.events + events,
            seq_range: Some(
                match pending.seq_range {
                    Some((lo, _)) => (lo, seq),
                    None => (seq, seq),
                },
            ),
            snapshot: pending.snapshot,
        },
        Admit::Gap => pending,
    }
}

/// How the plane stands towards this relay.
#[derive(Clone, Copy, Debug, PartialEq, Eq, Structural)]
pub struct EdgeState {
    /// The plane has asked for a snapshot, or never received one; deltas are
    /// withheld until one flows.
    pub needs_snapshot: bool,
    /// The route was missing; nothing is posted until this clock reading.
    pub backoff_until: Option<u128>,
}

/// What a relay knows.
#[verifier::ext_equal]
pub struct RelayView {
    pub edge: EdgeState,
    pub stream: ContinuityView,
    pub pending: PendingView,
}

/// What a flush does.
#[derive(Clone, Copy, Debug, PartialEq, Eq, Structural)]
pub enum FlushPlan {
    /// Nothing.
    Idle,
    /// Reconnect to the engine, which brings a snapshot.
    Reconnect,
    /// Post what waits.
    Post,
}

/// How a post ended.
#[derive(Clone, Copy, Debug, PartialEq, Eq, Structural)]
pub enum PostOutcome {
    /// The plane took the events, and says whether it needs a snapshot.
    Accepted { need_snapshot: bool },
    /// The plane has no such route.
    NotFound,
    /// The plane refused the events, or could not be reached.
    Dropped,
}

/// How a post with a response status ended.
pub open spec fn outcome_of(status: u16, need_snapshot: bool) -> PostOutcome {
    if 200 <= status < 300 {
        PostOutcome::Accepted { need_snapshot }
    } else if status == 404 || status == 410 {
        PostOutcome::NotFound
    } else {
        PostOutcome::Dropped
    }
}

/// Classifies the response to a post.
pub fn classify_response(status: u16, need_snapshot: bool) -> (r: PostOutcome)
    ensures
        r == outcome_of(status, need_snapshot),
{
    if status >= 200 && status < 300 {
        PostOutcome::Accepted { need_snapshot }
    } else if status == 404 || status == 410 {
        PostOutcome::NotFound
    } else {
        PostOutcome::Dropped
    }
}

/// Whether posting is suspended.
pub open spec fn suspended(edge: EdgeState, now: u64) -> bool {
    edge.backoff_until matches Some(until) && now < until
}

/// What a flush does.
pub open spec fn flush_of(relay: RelayView, now: u64) -> FlushPlan {
    if suspended(relay.edge, now) || relay.stream.epoch is None {
        FlushPlan::Idle
    } else if relay.pending.seq_range is None {
        if relay.edge.needs_snapshot {
            FlushPlan::Reconnect
        } else {
            FlushPlan::Idle
        }
    } else if relay.edge.needs_snapshot && !relay.pending.snapshot {
        FlushPlan::Reconnect
    } else {
        FlushPlan::Post
    }
}

/// The relay after a flush was planned: while posting is suspended, what waits
/// is dropped and a snapshot is needed; after it, the suspension ends.
pub open spec fn planned(relay: RelayView, now: u64) -> RelayView {
    if suspended(relay.edge, now) {
        RelayView {
            edge: EdgeState { needs_snapshot: true, ..relay.edge },
            pending: nothing_pending(),
            ..relay
        }
    } else {
        RelayView { edge: EdgeState { backoff_until: None, ..relay.edge }, ..relay }
    }
}

/// The relay after a post; what waited is gone, however it ended.
pub open spec fn posted(relay: RelayView, outcome: PostOutcome, now: u64) -> RelayView {
    RelayView {
        edge: match outcome {
            PostOutcome::Accepted { need_snapshot } => EdgeState {
                needs_snapshot: need_snapshot,
                ..relay.edge
            },
            PostOutcome::NotFound => EdgeState {
                needs_snapshot: true,
                backoff_until: Some((now + NOT_FOUND_BACKOFF) as u128),
            },
            PostOutcome::Dropped => relay.edge,
        },
        pending: nothing_pending(),
        ..relay
    }
}

/// The relay after a message.
pub open spec fn relayed(
    relay: RelayView,
    seq: u64,
    epoch: Seq<char>,
    snapshot: bool,
    events: Seq<JsonValue>,
) -> RelayView {
    let verdict = admitted(relay.stream, epoch, seq, snapshot);
    RelayView {
        stream: stream_after(relay.stream, epoch, seq, snapshot),
        pending: pending_after(relay.pending, verdict, seq, events),
        ..relay
    }
}

/// Whether what waits fits the stream: its numbers end at the last one, and
/// events come with numbers.
pub open spec fn consistent(relay: RelayView) -> bool {
    &&& match relay.pending.seq_range {
        Some((lo, hi)) => lo <= hi && relay.stream.last_seq == Some(hi) && relay.stream.epoch
            is Some,
        None => relay.pending == nothing_pending(),
    }
}

/// A batch of events as it is posted.
#[derive(Debug)]
pub struct RelayBatch<'a> {
    pub epoch: &'a str,
    /// First and last number covered.
    pub seq_range: (u64, u64),
    /// Whether the batch begins with a full snapshot.
    pub snapshot: bool,
    pub events: &'a Vec<JsonValue>,
}

/// Whether a batch is what waits in a relay.
pub open spec fn is_batch(batch: Option<RelayBatch<'_>>, relay: RelayView) -> bool {
    match (relay.stream.epoch, relay.pending.seq_range) {
        (Some(epoch), Some(range)) => batch matches Some(b) && b.epoch@ == epoch && b.seq_range
            == range && b.snapshot == relay.pending.snapshot && b.events@ == relay.pending.events,
        _ => batch is None,
    }
}

/// A relay before its first session.
pub open spec fn new_relay() -> RelayView {
    RelayView {
        edge: EdgeState { needs_snapshot: true, backoff_until: None },
        stream: ContinuityView { epoch: None, last_seq: None },
        pending: nothing_pending(),
    }
}

/// Relay of one model.
#[derive(Debug)]
pub struct KvRelay {
    edge: EdgeState,
    continuity: Continuity,
    pending: Pending,
}

impl View for KvRelay {
    type V = RelayView;

    closed spec fn view(&self) -> RelayView {
        RelayView { edge: self.edge, stream: self.continuity@, pending: self.pending@ }
    }
}

impl KvRelay {
    /// A relay before its first session. It needs a snapshot: the plane must
    /// not apply deltas before a full baseline.
    pub fn new() -> (r: KvRelay)
        ensures
            r@ == new_relay(),
            consistent(r@),
    {
        KvRelay {
            edge: EdgeState { needs_snapshot: true, backoff_until: None },
            continuity: Continuity::default(),
            pending: Pending::default(),
        }
    }

    /// Starts a session with the engine: nothing is known of its stream.
    pub fn start_session(&mut self)
        ensures
            final(self)@ == (RelayView {
                stream: ContinuityView { epoch: None, last_seq: None },
                pending: nothing_pending(),
                ..old(self)@
            }),
            consistent(final(self)@),
    {
        self.continuity = Continuity::default();
        self.pending = Pending::default();
    }

    /// Tests whether a message can be taken.
    pub fn can_take(&self, message: &KvMessage) -> (r: bool)
        ensures
            r == can_judge(self@.stream, message.epoch@, message.snapshot),
    {
        self.continuity.can_accept(message.epoch.as_str(), message.snapshot)
    }

    /// Takes a message; returns whether the engine has to be reconnected to.
    pub fn on_message(&mut self, message: KvMessage) -> (r: bool)
        requires
            consistent(old(self)@),
            can_judge(old(self)@.stream, message.epoch@, message.snapshot),
        ensures
            consistent(final(self)@),
            final(self)@ == relayed(
                old(self)@,
                message.seq,
                message.epoch@,
                message.snapshot,
                message.events@,
            ),
            r == (admitted(
                old(self)@.stream,
                message.epoch@,
                message.seq,
                message.snapshot,
            ) == Admit::Gap),
    {
        match self.continuity.accept(message.epoch.as_str(), message.seq, message.snapshot) {
            Admit::Snapshot => {
                self.pending = Pending {
                    events: message.events,
                    seq_range: Some((message.seq, message.seq)),
                    snapshot: true,
                };
                false
            },
            Admit::Delta => {
                let mut events: Vec<JsonValue> = message.events;
                self.pending.events.append(&mut events);
                self.pending.seq_range = Some(
                    match self.pending.seq_range {
                        Some((lo, _)) => (lo, message.seq),
                        None => (message.seq, message.seq),
                    },
                );
                false
            },
            Admit::Gap => true,
        }
    }

    /// Decides what the flush at a clock reading does.
    pub fn plan_flush(&mut self, now: u64) -> (r: FlushPlan)
        requires
            consistent(old(self)@),
        ensures
            consistent(final(self)@),
            final(self)@ == planned(old(self)@, now),
            r == flush_of(old(self)@, now),
    {
        match self.edge.backoff_until {
            Some(until) => {
                if (now as u128) < until {
                    self.pending = Pending::default();
                    self.edge = EdgeState {
                        needs_snapshot: true,
                        backoff_until: self.edge.backoff_until,
                    };
                    return FlushPlan::Idle;
                }
                self.edge = EdgeState {
                    needs_snapshot: self.edge.needs_snapshot,
                    backoff_until: None,
                };
            },
            None => {},
        }
        if self.continuity.epoch.is_none() {
            return FlushPlan::Idle;
        }
        if self.pending.seq_range.is_none() {
            if self.edge.needs_snapshot {
                return FlushPlan::Reconnect;
            }
            return FlushPlan::Idle;
        }
        if self.edge.needs_snapshot && !self.pending.snapshot {
            return FlushPlan::Reconnect;
        }
        FlushPlan::Post
    }

    /// What waits, as it is posted.
    pub fn batch(&self) -> (r: Option<RelayBatch<'_>>)
        ensures
            is_batch(r, self@),
    {
        match (&self.continuity.epoch, self.pending.seq_range) {
            (Some(epoch), Some(range)) => Some(
                RelayBatch {
                    epoch: epoch.as_str(),
                    seq_range: range,
                    snapshot: self.pending.snapshot,
                    events: &self.pending.events,
                },
            ),
            _ => None,
        }
    }

    /// Takes the outcome of a post; returns whether the engine has to be
    /// reconnected to.
    pub fn finish_flush(&mut self, outcome: PostOutcome, now: u64) -> (r: bool)
        requires
            consistent(old(self)@),
        ensures
            consistent(final(self)@),
            final(self)@ == posted(old(self)@, outcome, now),
            r == (outcome == PostOutcome::Accepted { need_snapshot: true }),
    {
        let mut reconnect: bool = false;
        match outcome {
            PostOutcome::Accepted { need_snapshot } => {
                self.edge = EdgeState {
                    needs_snapshot: need_snapshot,
                    backoff_until: self.edge.backoff_until,
                };
                reconnect = need_snapshot;
            },
            PostOutcome::NotFound => {
                self.edge = EdgeState {
                    needs_snapshot: true,
                    backoff_until: Some(now as u128 + NOT_FOUND_BACKOFF),
                };
            },
            PostOutcome::Dropped => {},
        }
        self.pending = Pending::default();
        reconnect
    }
}

/// Decodes the frames of one message.
pub fn decode_message(frames: &Vec<Vec<u8>>) -> (r: Option<KvMessage>)
    ensures
        match message_of(frame_views(frames@)) {
            Some((seq, payload)) => r matches Some(m) && is_message(m, seq, payload),
            None => r is None,
        },
{
    match parse_message(frames) {
        Some((seq, payload)) => Some(read_payload(seq, &payload)),
        None => None,
    }
}

/// What happens to a relay.
#[derive(Debug)]
pub enum RelayEvent {
    /// The relay was cancelled.
    Cancelled,
    /// Connecting to the engine, or subscribing, failed.
    ConnectFailed,
    /// The engine was connected and subscribed to.
    Connected,
    /// The flush window ended.
    FlushDue,
    /// A post ended.
    Posted(PostOutcome),
    /// The engine was silent for too long, or receiving from it failed.
    Lost,
    /// The engine sent a message.
    Message(KvMessage),
}

/// What a relay does next.
#[derive(Clone, Copy, Debug, PartialEq, Eq, Structural)]
pub enum RelayAction {
    /// End.
    Stop,
    /// Connect to the engine.
    Connect,
    /// Connect to the engine after `RETRY_DELAY`.
    ConnectLater,
    /// Wait for a message, for `RECV_TIMEOUT` at most, and for the flush window.
    Listen,
    /// Post what waits.
    Post,
}

/// What a relay does after an event.
pub open spec fn action_of(relay: RelayView, event: RelayEvent, now: u64) -> RelayAction {
    match event {
        RelayEvent::Cancelled => RelayAction::Stop,
        RelayEvent::ConnectFailed => RelayAction::ConnectLater,
        RelayEvent::Connected => RelayAction::Listen,
        RelayEvent::FlushDue => match flush_of(relay, now) {
            FlushPlan::Idle => RelayAction::Listen,
            FlushPlan::Reconnect => RelayAction::Connect,
            FlushPlan::Post => RelayAction::Post,
        },
        RelayEvent::Posted(outcome) => if outcome == (PostOutcome::Accepted {
            need_snapshot: true,
        }) {
            RelayAction::Connect
        } else {
            RelayAction::Listen
        },
        RelayEvent::Lost => RelayAction::Connect,
        RelayEvent::Message(m) => if admitted(relay.stream, m.epoch@, m.seq, m.snapshot)
            == Admit::Gap {
            RelayAction::Connect
        } else {
            RelayAction::Listen
        },
    }
}

/// The relay after an event.
pub open spec fn after_event(relay: RelayView, event: RelayEvent, now: u64) -> RelayView {
    match event {
        RelayEvent::Connected => RelayView {
            stream: ContinuityView { epoch: None, last_seq: None },
            pending: nothing_pending(),
            ..relay
        },
        RelayEvent::FlushDue => planned(relay, now),
        RelayEvent::Posted(outcome) => posted(relay, outcome, now),
        RelayEvent::Message(m) => relayed(relay, m.seq, m.epoch@, m.snapshot, m.events@),
        _ => relay,
    }
}

impl KvRelay {
    /// Takes an event at a clock reading and decides what to do next.
    pub fn step(&mut self, event: RelayEvent, now: u64) -> (r: RelayAction)
        requires
            consistent(old(self)@),
            event matches RelayEvent::Message(m) ==> can_judge(
                old(self)@.stream,
                m.epoch@,
                m.snapshot,
            ),
        ensures
            consistent(final(self)@),
            final(self)@ == after_event(old(self)@, event, now),
            r == action_of(old(self)@, event, now),
    {
        match event {
            RelayEvent::Cancelled => RelayAction::Stop,
            RelayEvent::ConnectFailed => RelayAction::ConnectLater,
            RelayEvent::Connected => {
                self.start_session();
                RelayAction::Listen
            },
            RelayEvent::FlushDue => match self.plan_flush(now) {
                FlushPlan::Idle => RelayAction::Listen,
                FlushPlan::Reconnect => RelayAction::Connect,
                FlushPlan::Post => RelayAction::Post,
            },
            RelayEvent::Posted(outcome) => {
                if self.finish_flush(outcome, now) {
                    RelayAction::Connect
                } else {
                    RelayAction::Listen
                }
            },
            RelayEvent::Lost => RelayAction::Connect,
            RelayEvent::Message(message) => {
                if self.on_message(message) {
                    RelayAction::Connect
                } else {
                    RelayAction::Listen
                }
            },
        }
    }
}

/// A relay posts only where something waits, and then it can be posted.
pub proof fn law_post_has_a_batch(relay: RelayView, event: RelayEvent, now: u64)
    requires
        consistent(relay),
        action_of(relay, event, now) == RelayAction::Post,
    ensures
        after_event(relay, event, now).stream.epoch is Some,
        after_event(relay, event, now).pending.seq_range is Some,
        after_event(relay, event, now).edge.needs_snapshot ==> after_event(
            relay,
            event,
            now,
        ).pending.snapshot,
{
}

/// Deltas are withheld until a snapshot flows: what is posted while the plane
/// needs a snapshot begins with one.
pub proof fn law_deltas_are_withheld(relay: RelayView, now: u64)
    requires
        flush_of(relay, now) == FlushPlan::Post,
        relay.edge.needs_snapshot,
    ensures
        relay.pending.snapshot,
{
}

/// Only what is continuous is posted: what waits covers the numbers up to the
/// last one of the stream, and after a post the next delta starts a batch right
/// after it.
pub proof fn law_batches_are_contiguous(
    relay: RelayView,
    outcome: PostOutcome,
    now: u64,
    epoch: Seq<char>,
    seq: u64,
    events: Seq<JsonValue>,
)
    requires
        consistent(relay),
        relay.pending.seq_range is Some,
        admitted(posted(relay, outcome, now).stream, epoch, seq, false) == Admit::Delta,
    ensures
        relayed(posted(relay, outcome, now), seq, epoch, false, events).pending.seq_range == Some(
            (seq, seq),
        ),
        seq == (relay.pending.seq_range->0).1 + 1,
        relay.stream.epoch == Some(epoch),
{
}

/// The relay after messages.
pub open spec fn after_messages(relay: RelayView, messages: Seq<KvMessage>) -> RelayView
    decreases messages.len(),
{
    if messages.len() == 0 {
        relay
    } else {
        let before = after_messages(relay, messages.drop_last());
        let m = messages.last();
        relayed(before, m.seq, m.epoch@, m.snapshot, m.events@)
    }
}

/// The events of messages, in order.
pub open spec fn all_events(messages: Seq<KvMessage>) -> Seq<JsonValue>
    decreases messages.len(),
{
    if messages.len() == 0 {
        Seq::empty()
    } else {
        all_events(messages.drop_last()) + messages.last().events@
    }
}

/// Whether messages are a snapshot and the deltas that directly follow it.
pub open spec fn is_run(messages: Seq<KvMessage>) -> bool {
    &&& messages.len() > 0
    &&& messages[0].snapshot
    &&& forall|i: int|
        0 < i < messages.len() ==> {
            &&& !(#[trigger] messages[i]).snapshot
            &&& messages[i].epoch@ == messages[0].epoch@
            &&& messages[i].seq == messages[0].seq + i
        }
}

/// Events are relayed verbatim and in order: whatever waited before, what waits
/// after a snapshot and the deltas that follow it is exactly their events, with
/// the numbers of the first and the last.
pub proof fn law_events_are_kept_in_order(relay: RelayView, messages: Seq<KvMessage>)
    requires
        is_run(messages),
    ensures
        after_messages(relay, messages).pending == (PendingView {
            events: all_events(messages),
            seq_range: Some((messages[0].seq, messages.last().seq)),
            snapshot: true,
        }),
        after_messages(relay, messages).stream == (ContinuityView {
            epoch: Some(messages[0].epoch@),
            last_seq: Some(messages.last().seq),
        }),
        after_messages(relay, messages).edge == relay.edge,
    decreases messages.len(),
{
    let before = messages.drop_last();
    reveal_with_fuel(after_messages, 2);
    reveal_with_fuel(all_events, 2);
    if before.len() == 0 {
        assert(all_events(messages) =~= messages[0].events@);
    } else {
        assert forall|i: int| 0 < i < before.len() implies {
            &&& !(#[trigger] before[i]).snapshot
            &&& before[i].epoch@ == before[0].epoch@
            &&& before[i].seq == before[0].seq + i
        } by {
            assert(before[i] == messages[i]);
        }
        law_events_are_kept_in_order(relay, before);
        let last = messages[messages.len() - 1];
        assert(!last.snapshot && last.epoch@ == messages[0].epoch@);
        if before.len() > 1 {
            assert(messages[before.len() - 1].seq == messages[0].seq + before.len() - 1);
        }
    }
}

/// Whether messages are deltas that directly follow a stream.
pub open spec fn follow(stream: ContinuityView, messages: Seq<KvMessage>) -> bool {
    &&& messages.len() > 0
    &&& stream.last_seq is Some
    &&& forall|i: int|
        0 <= i < messages.len() ==> {
            &&& !(#[trigger] messages[i]).snapshot
            &&& stream.epoch == Some(messages[i].epoch@)
            &&& messages[i].seq == stream.last_seq->0 + 1 + i
        }
}

/// Deltas are relayed verbatim and in order too: after a post, what waits after
/// the deltas that follow the stream is exactly their events, with the numbers of
/// the first and the last, and it does not begin with a snapshot.
pub proof fn law_deltas_are_kept_in_order(
    relay: RelayView,
    outcome: PostOutcome,
    now: u64,
    messages: Seq<KvMessage>,
)
    requires
        follow(relay.stream, messages),
    ensures
        after_messages(posted(relay, outcome, now), messages).pending == (PendingView {
            events: all_events(messages),
            seq_range: Some((messages[0].seq, messages.last().seq)),
            snapshot: false,
        }),
        after_messages(posted(relay, outcome, now), messages).stream == (ContinuityView {
            epoch: relay.stream.epoch,
            last_seq: Some(messages.last().seq),
        }),
        after_messages(posted(relay, outcome, now), messages).edge == posted(
            relay,
            outcome,
            now,
        ).edge,
    decreases messages.len(),
{
    let before = messages.drop_last();
    let last = messages[messages.len() - 1];
    reveal_with_fuel(after_messages, 2);
    reveal_with_fuel(all_events, 2);
    assert(!last.snapshot && relay.stream.epoch == Some(last.epoch@));
    if before.len() == 0 {
        assert(all_events(messages) =~= messages[0].events@);
        assert(Seq::<JsonValue>::empty() + last.events@ =~= last.events@);
    } else {
        assert forall|i: int| 0 <= i < before.len() implies {
            &&& !(#[trigger] before[i]).snapshot
            &&& relay.stream.epoch == Some(before[i].epoch@)
            &&& before[i].seq == relay.stream.last_seq->0 + 1 + i
        } by {
            assert(before[i] == messages[i]);
        }
        law_deltas_are_kept_in_order(relay, outcome, now, before);
        assert(before.last() == messages[before.len() - 1]);
    }
}

/// While the route is missing nothing is posted, and afterwards a snapshot is
/// needed first.
pub proof fn law_missing_route_suspends(relay: RelayView, now: u64, later: u64)
    requires
        later < now + NOT_FOUND_BACKOFF,
    ensures
        flush_of(posted(relay, PostOutcome::NotFound, now), later) == FlushPlan::Idle,
        planned(posted(relay, PostOutcome::NotFound, now), later).edge.needs_snapshot,
        planned(posted(relay, PostOutcome::NotFound, now), later).pending == nothing_pending(),
{
}

/// A relay task of the supervisor.
#[derive(Debug)]
pub struct RelayTask {
    pub tag: String,
    pub finished: bool,
}

/// What a scan of the supervisor does.
#[derive(Debug)]
pub struct ScanPlan {
    /// Tags of tasks to cancel: their models are gone.
    pub cancel: Vec<String>,
    /// Ready tags that are known not to be routed.
    pub not_routed: NameSet,
    /// Ready tags to look up an endpoint for.
    pub discover: Vec<String>,
}

/// Whether texts hold a text.
pub open spec fn holds(texts: Seq<String>, text: Seq<char>) -> bool {
    exists|i: int| 0 <= i < texts.len() && (#[trigger] texts[i])@ == text
}

/// Whether no text occurs twice.
pub open spec fn no_repeats(texts: Seq<String>) -> bool {
    forall|i: int, j: int|
        0 <= i < j < texts.len() ==> (#[trigger] texts[i])@ != (#[trigger] texts[j])@
}

/// Whether a running task serves a tag.
pub open spec fn is_relayed(tasks: Seq<RelayTask>, tag: Seq<char>) -> bool {
    exists|i: int| 0 <= i < tasks.len() && (#[trigger] tasks[i]).tag@ == tag && !tasks[i].finished
}

fn holds_text(texts: &Vec<String>, text: &str) -> (r: bool)
    ensures
        r == holds(texts@, text@),
{
    let mut i: usize = 0;
    while i < texts.len()
        invariant
            i <= texts@.len(),
            forall|j: int| 0 <= j < i ==> (#[trigger] texts@[j])@ != text@,
        decreases texts.len() - i,
    {
        if same_text(texts[i].as_str(), text) {
            return true;
        }
        i = i + 1;
    }
    false
}

fn relayed_tag(tasks: &Vec<RelayTask>, tag: &str) -> (r: bool)
    ensures
        r == is_relayed(tasks@, tag@),
{
    let mut i: usize = 0;
    while i < tasks.len()
        invariant
            i <= tasks@.len(),
            forall|j: int|
                0 <= j < i ==> !((#[trigger] tasks@[j]).tag@ == tag@ && !tasks@[j].finished),
        decreases tasks.len() - i,
    {
        if same_text(tasks[i].tag.as_str(), tag) && !tasks[i].finished {
            return true;
        }
        i = i + 1;
    }
    false
}

/// Whether a plan is that of a scan.
pub open spec fn is_scan(
    plan: ScanPlan,
    tasks: Seq<RelayTask>,
    not_routed: Set<Seq<char>>,
    ready: Seq<String>,
) -> bool {
    &&& forall|tag: Seq<char>| #[trigger]
        holds(plan.cancel@, tag) <==> (exists|i: int|
            0 <= i < tasks.len() && (#[trigger] tasks[i]).tag@ == tag) && !holds(ready, tag)
    &&& forall|tag: Seq<char>| #[trigger]
        plan.not_routed@.contains(tag) <==> not_routed.contains(tag) && holds(ready, tag)
    &&& forall|tag: Seq<char>| #[trigger]
        holds(plan.discover@, tag) <==> holds(ready, tag) && !is_relayed(tasks, tag)
            && !not_routed.contains(tag)
    &&& no_repeats(plan.cancel@)
    &&& no_repeats(plan.discover@)
}

/// One scan: tasks of models that are gone are cancelled, what is known of
/// models that are gone is forgotten, and every ready model that is neither
/// relayed nor known not to be routed is looked up. Nothing is listed twice.
pub fn scan(tasks: &Vec<RelayTask>, not_routed: &NameSet, ready: &Vec<String>) -> (r: ScanPlan)
    requires
        not_routed.wf(),
    ensures
        r.not_routed.wf(),
        is_scan(r, tasks@, not_routed@, ready@),
{
    let mut cancel: Vec<String> = Vec::new();
    let mut i: usize = 0;
    while i < tasks.len()
        invariant
            i <= tasks@.len(),
            forall|k: int|
                0 <= k < cancel@.len() ==> !holds(ready@, (#[trigger] cancel@[k])@) && exists|j: int|
                    0 <= j < i && (#[trigger] tasks@[j]).tag@ == cancel@[k]@,
            forall|j: int|
                0 <= j < i && !holds(ready@, (#[trigger] tasks@[j]).tag@) ==> holds(
                    cancel@,
                    tasks@[j].tag@,
                ),
            no_repeats(cancel@),
        decreases tasks.len() - i,
    {
        let ghost before = cancel@;
        if !holds_text(ready, tasks[i].tag.as_str()) && !holds_text(&cancel, tasks[i].tag.as_str()) {
            cancel.push(tasks[i].tag.clone());
            assert(cancel@[before.len() as int]@ == tasks@[i as int].tag@);
        }
        proof {
            lemma_holds_grows(before, cancel@);
        }
        i = i + 1;
    }
    let mut kept: NameSet = NameSet::new();
    let mut discover: Vec<String> = Vec::new();
    i = 0;
    while i < ready.len()
        invariant
            i <= ready@.len(),
            kept.wf(),
            forall|tag: Seq<char>| #[trigger]
                kept@.contains(tag) <==> not_routed@.contains(tag) && holds(
                    ready@.take(i as int),
                    tag,
                ),
            forall|k: int|
                0 <= k < discover@.len() ==> {
                    let tag = (#[trigger] discover@[k])@;
                    holds(ready@, tag) && !is_relayed(tasks@, tag) && !not_routed@.contains(tag)
                },
            forall|j: int|
                0 <= j < i && !is_relayed(tasks@, (#[trigger] ready@[j])@) && !not_routed@.contains(
                    ready@[j]@,
                ) ==> holds(discover@, ready@[j]@),
            no_repeats(discover@),
        decreases ready.len() - i,
    {
        let ghost before = discover@;
        let ghost known = kept@;
        let tag: &str = ready[i].as_str();
        assert(holds(ready@, ready@[i as int]@));
        if not_routed.contains(tag) {
            kept.insert(tag);
        } else if !relayed_tag(tasks, tag) && !holds_text(&discover, tag) {
            discover.push(tag.to_owned());
            assert(discover@[before.len() as int]@ == tag@);
        }
        proof {
            lemma_holds_grows(before, discover@);
            let done = ready@.take(i as int);
            let next = ready@.take(i + 1);
            assert forall|t: Seq<char>| holds(next, t) == (holds(done, t) || t == tag@) by {
                if holds(done, t) {
                    let k = choose|k: int| 0 <= k < done.len() && (#[trigger] done[k])@ == t;
                    assert(next[k]@ == t);
                }
                if t == tag@ {
                    assert(next[i as int]@ == t);
                }
                if holds(next, t) && t != tag@ {
                    let k = choose|k: int| 0 <= k < next.len() && (#[trigger] next[k])@ == t;
                    assert(done[k]@ == t);
                }
            }
        }
        i = i + 1;
    }
    proof {
        assert(ready@.take(ready@.len() as int) =~= ready@);
    }
    ScanPlan { cancel, not_routed: kept, discover }
}

proof fn lemma_holds_grows(before: Seq<String>, after: Seq<String>)
    requires
        before.len() <= after.len(),
        forall|i: int| 0 <= i < before.len() ==> #[trigger] after[i] == before[i],
    ensures
        forall|t: Seq<char>| #[trigger] holds(before, t) ==> holds(after, t),
{
    assert forall|t: Seq<char>| #[trigger] holds(before, t) implies holds(after, t) by {
        let i = choose|i: int| 0 <= i < before.len() && (#[trigger] before[i])@ == t;
        assert(after[i]@ == t);
    }
}

/// The first text among values.
pub open spec fn first_text(values: Seq<ValueView>) -> Option<Seq<char>>
    decreases values.len(),
{
    if values.len() == 0 {
        None
    } else {
        match values[0] {
            ValueView::String(s) => Some(s),
            _ => first_text(values.drop_first()),
        }
    }
}

/// The endpoint that a sidecar predicted.
pub open spec fn endpoint_of(prediction: PredictionView) -> Option<Seq<char>> {
    match (prediction.error, prediction.results) {
        (None, Some(values)) => first_text(values),
        _ => None,
    }
}

/// The engine's endpoint: the first text that its sidecar predicted. A sidecar
/// that reports an error, or no text, has none.
pub fn discover_endpoint(prediction: &Prediction) -> (r: Option<String>)
    ensures
        text::text_option(r) == endpoint_of(prediction@),
{
    if prediction.error.is_some() {
        return None;
    }
    match &prediction.results {
        None => None,
        Some(values) => {
            let ghost views = values@.map_values(|v: Value| v@);
            let mut i: usize = 0;
            assert(views.skip(0) =~= views);
            while i < values.len()
                invariant
                    i <= values@.len(),
                    views == values@.map_values(|v: Value| v@),
                    first_text(views) == first_text(views.skip(i as int)),
                    prediction@.error is None,
                    prediction@.results == Some(views),
                decreases values.len() - i,
            {
                assert(views.skip(i as int).drop_first() =~= views.skip(i + 1));
                match &values[i] {
                    Value::String(s) => {
                        return Some(s.clone());
                    },
                    _ => {},
                }
                i = i + 1;
            }
            None
        },
    }
}

/// The tag of a model's sidecar.
pub fn sidecar_tag(tag: &str) -> (r: String)
    ensures
        r@ == tag@ + ":kv"@,
{
    joined(tag, ":kv")
}

/// A relay does not stall. When a flush is due, posting is not suspended and the
/// stream's epoch is known, a plane that needs a snapshot gets one: what waits is
/// posted where it begins with a snapshot, and otherwise the relay reconnects,
/// which brings one. A plane that needs none gets what waits.
pub proof fn law_relay_does_not_stall(relay: RelayView, now: u64)
    requires
        relay.edge.backoff_until is None || relay.edge.backoff_until->0 <= now,
        relay.stream.epoch is Some,
    ensures
        ({
            let action = action_of(relay, RelayEvent::FlushDue, now);
            let waits = relay.pending.seq_range is Some;
            &&& relay.edge.needs_snapshot ==> action == RelayAction::Connect || action
                == RelayAction::Post
            &&& action == RelayAction::Connect <==> relay.edge.needs_snapshot && !(waits
                && relay.pending.snapshot)
            &&& action == RelayAction::Post <==> waits && (relay.edge.needs_snapshot
                ==> relay.pending.snapshot)
            &&& action == RelayAction::Listen <==> !relay.edge.needs_snapshot && !waits
            &&& after_event(relay, RelayEvent::FlushDue, now).pending == relay.pending
            &&& after_event(relay, RelayEvent::FlushDue, now).stream == relay.stream
            &&& after_event(relay, RelayEvent::FlushDue, now).edge.backoff_until is None
            &&& after_event(relay, RelayEvent::FlushDue, now).edge.needs_snapshot
                == relay.edge.needs_snapshot
        }),
{
}

/// A relay that may not post, or does not know its stream yet, listens on. While
/// posting is suspended what waits is dropped, and a snapshot has to make up for
/// it; the suspension itself stays.
pub proof fn law_idle_relays_listen(relay: RelayView, now: u64)
    ensures
        ({
            let action = action_of(relay, RelayEvent::FlushDue, now);
            let next = after_event(relay, RelayEvent::FlushDue, now);
            &&& relay.stream.epoch is None ==> action == RelayAction::Listen
            &&& relay.edge.backoff_until is Some && now < relay.edge.backoff_until->0 ==> {
                &&& action == RelayAction::Listen
                &&& next.pending.events.len() == 0
                &&& next.pending.seq_range is None
                &&& !next.pending.snapshot
                &&& next.edge.needs_snapshot
                &&& next.edge.backoff_until == relay.edge.backoff_until
                &&& next.stream == relay.stream
            }
        }),
{
}

/// A relay ends exactly where it is cancelled, and waits before it connects
/// exactly where connecting failed. It reconnects where the engine was lost, where
/// the plane took a batch and asks for a snapshot, and where a message leaves a
/// gap: it is no snapshot, and it is of another epoch or does not directly follow.
pub proof fn law_relay_actions(relay: RelayView, event: RelayEvent, now: u64)
    ensures
        ({
            let action = action_of(relay, event, now);
            &&& action == RelayAction::Stop <==> event is Cancelled
            &&& action == RelayAction::ConnectLater <==> event is ConnectFailed
            &&& action == RelayAction::Post ==> event is FlushDue
            &&& event is Connected ==> action == RelayAction::Listen
            &&& event is Lost ==> action == RelayAction::Connect
            &&& event matches RelayEvent::Posted(outcome) ==> action == (match outcome {
                PostOutcome::Accepted { need_snapshot } => if need_snapshot {
                    RelayAction::Connect
                } else {
                    RelayAction::Listen
                },
                _ => RelayAction::Listen,
            })
            &&& event matches RelayEvent::Message(m) ==> (action == RelayAction::Connect || action
                == RelayAction::Listen) && (action == RelayAction::Listen <==> m.snapshot || ((
            relay.stream.epoch is None || relay.stream.epoch == Some(m.epoch@)) && (
            relay.stream.last_seq is None || relay.stream.last_seq->0 + 1 == m.seq)))
        }),
{
}

/// A message that leaves a gap changes nothing; one that does not is the stream's
/// last from there on. How the plane stands does not depend on messages.
pub proof fn law_gaps_change_nothing(relay: RelayView, m: KvMessage, now: u64)
    ensures
        ({
            let next = after_event(relay, RelayEvent::Message(m), now);
            &&& action_of(relay, RelayEvent::Message(m), now) == RelayAction::Connect ==> next
                == relay
            &&& action_of(relay, RelayEvent::Message(m), now) == RelayAction::Listen
                ==> next.stream.epoch == Some(m.epoch@) && next.stream.last_seq == Some(m.seq) && (
            next.pending.seq_range matches Some((_, hi)) && hi == m.seq)
            &&& next.edge == relay.edge
            &&& m.snapshot ==> next.pending.events == m.events@ && next.pending.snapshot
            &&& !m.snapshot ==> next.pending.snapshot == relay.pending.snapshot
        }),
{
}

/// A new session knows nothing of the stream and holds nothing back from the last
/// one. What the plane asked for, and how long it is left alone, stays.
pub proof fn law_sessions_start_anew(relay: RelayView, now: u64)
    ensures
        ({
            let next = after_event(relay, RelayEvent::Connected, now);
            &&& next.stream.epoch is None
            &&& next.stream.last_seq is None
            &&& next.pending.events.len() == 0
            &&& next.pending.seq_range is None
            &&& !next.pending.snapshot
            &&& next.edge == relay.edge
        }),
{
}

/// Events that are neither messages nor sessions, flushes nor posts leave a relay
/// as it was.
pub proof fn law_other_events_change_nothing(relay: RelayView, event: RelayEvent, now: u64)
    requires
        event is Cancelled || event is ConnectFailed || event is Lost,
    ensures
        after_event(relay, event, now) == relay,
{
}

/// However a post ends, nothing of it waits any more and the stream goes on. The
/// plane's answer says whether it needs a snapshot; a missing route does too, and
/// suspends posting for a minute; a post that was dropped changes nothing else.
pub proof fn law_posts_clear_what_waits(relay: RelayView, outcome: PostOutcome, now: u64)
    ensures
        ({
            let next = after_event(relay, RelayEvent::Posted(outcome), now);
            &&& next.pending.events.len() == 0
            &&& next.pending.seq_range is None
            &&& !next.pending.snapshot
            &&& next.stream == relay.stream
            &&& outcome matches PostOutcome::Accepted { need_snapshot } ==> next.edge.needs_snapshot
                == need_snapshot && next.edge.backoff_until == relay.edge.backoff_until
            &&& outcome is NotFound ==> next.edge.needs_snapshot && next.edge.backoff_until == Some(
                (now + 60_000_000_000) as u128,
            )
            &&& outcome is Dropped ==> next.edge == relay.edge
        }),
{
}

/// A relay recovers: once it is connected again, the engine's snapshot is posted at
/// the next flush, unless posting is suspended, and the plane gets its events.
pub proof fn law_snapshots_are_posted(relay: RelayView, m: KvMessage, now: u64, later: u64)
    requires
        m.snapshot,
        relay.edge.backoff_until is None || relay.edge.backoff_until->0 <= later,
    ensures
        ({
            let connected = after_event(relay, RelayEvent::Connected, now);
            let filled = after_event(connected, RelayEvent::Message(m), now);
            &&& action_of(connected, RelayEvent::Message(m), now) == RelayAction::Listen
            &&& action_of(filled, RelayEvent::FlushDue, later) == RelayAction::Post
            &&& after_event(filled, RelayEvent::FlushDue, later).pending.events == m.events@
        }),
{
}

/// A plane that answered with a status of success took the events; it has no route
/// where it answers that a page is missing or gone; everything else is a refusal.
pub proof fn law_outcomes_by_status(status: u16, need_snapshot: bool)
    ensures
        outcome_of(status, need_snapshot) is Accepted <==> status / 100 == 2,
        outcome_of(status, need_snapshot) matches PostOutcome::Accepted { need_snapshot: n } ==> n
            == need_snapshot,
        outcome_of(status, need_snapshot) is NotFound <==> status == 404 || status == 410,
{
}

/// The number of a message is that of its eight bytes, the most significant first.
pub proof fn law_numbers_are_big_endian(b: Seq<u8>)
    requires
        b.len() == 8,
    ensures
        big_endian(b) == b[0] * 0x100_0000_0000_0000 + b[1] * 0x1_0000_0000_0000 + b[2]
            * 0x100_0000_0000 + b[3] * 0x1_0000_0000 + b[4] * 0x100_0000 + b[5] * 0x1_0000 + b[6]
            * 0x100 + b[7],
        big_endian(b) <= u64::MAX,
{
    reveal_with_fuel(big_endian, 9);
    let b7 = b.drop_last();
    let b6 = b7.drop_last();
    let b5 = b6.drop_last();
    let b4 = b5.drop_last();
    let b3 = b4.drop_last();
    let b2 = b3.drop_last();
    let b1 = b2.drop_last();
    assert(big_endian(b1) == b[0]);
    assert(big_endian(b2) == b[0] * 0x100 + b[1]);
    assert(big_endian(b3) == b[0] * 0x1_0000 + b[1] * 0x100 + b[2]);
    assert(big_endian(b4) == b[0] * 0x100_0000 + b[1] * 0x1_0000 + b[2] * 0x100 + b[3]);
    assert(big_endian(b5) == b[0] * 0x1_0000_0000 + b[1] * 0x100_0000 + b[2] * 0x1_0000 + b[3]
        * 0x100 + b[4]);
    assert(big_endian(b6) == b[0] * 0x100_0000_0000 + b[1] * 0x1_0000_0000 + b[2] * 0x100_0000
        + b[3] * 0x1_0000 + b[4] * 0x100 + b[5]);
}

/// A message is read exactly where it has three frames: the topic `kv`, a number
/// of eight bytes, and a payload of JSON. The number comes from the second frame
/// and the payload from the third.
pub proof fn law_messages_have_three_frames(frames: Seq<Seq<u8>>)
    ensures
        message_of(frames) is Some <==> {
            &&& frames.len() == 3
            &&& frames[0].len() == 2 && frames[0][0] == 'k' as u8 && frames[0][1] == 'v' as u8
            &&& frames[1].len() == 8
            &&& json::json_value_of(frames[2]) is Some
        },
        message_of(frames) matches Some((number, payload)) ==> number == big_endian(frames[1])
            && Some(payload) == json::json_value_of(frames[2]),
{
    assert('k' as u8 == 0x6b && 'v' as u8 == 0x76);
    if frames.len() == 3 && frames[0].len() == 2 && frames[0][0] == 0x6b && frames[0][1] == 0x76 {
        assert(frames[0] =~= seq![0x6bu8, 0x76u8]);
    }
    if frames.len() == 3 && frames[1].len() == 8 {
        law_numbers_are_big_endian(frames[1]);
    }
}

/// The first text among values is one of them, and nothing before it is a text;
/// there is none exactly where no value is a text.
pub proof fn law_first_text_is_first(values: Seq<ValueView>)
    ensures
        first_text(values) matches Some(s) ==> exists|i: int|
            0 <= i < values.len() && #[trigger] values[i] == ValueView::String(s) && forall|j: int|
                0 <= j < i ==> !((#[trigger] values[j]) is String),
        first_text(values) is None ==> forall|i: int|
            0 <= i < values.len() ==> !((#[trigger] values[i]) is String),
    decreases values.len(),
{
    if values.len() > 0 && !(values[0] is String) {
        let rest = values.drop_first();
        law_first_text_is_first(rest);
        if let Some(s) = first_text(values) {
            let i = choose|i: int|
                0 <= i < rest.len() && #[trigger] rest[i] == ValueView::String(s) && forall|j: int|
                    0 <= j < i ==> !((#[trigger] rest[j]) is String);
            assert(values[i + 1] == ValueView::String(s));
            assert forall|j: int| 0 <= j < i + 1 implies !((#[trigger] values[j]) is String) by {
                if j > 0 {
                    assert(values[j] == rest[j - 1]);
                }
            }
        } else {
            assert forall|i: int| 0 <= i < values.len() implies !((
            #[trigger] values[i]) is String) by {
                if i > 0 {
                    assert(values[i] == rest[i - 1]);
                }
            }
        }
    } else if values.len() > 0 {
        assert(values[0] == ValueView::String(values[0]->String_0));
    }
}

/// A relay starts without knowledge of its stream and of the plane, which therefore needs a
/// snapshot first.
pub proof fn law_new_relays_need_a_snapshot()
    ensures
        new_relay().edge.needs_snapshot,
        new_relay().edge.backoff_until is None,
        new_relay().stream.epoch is None,
        new_relay().stream.last_seq is None,
        new_relay().pending.seq_range is None,
        new_relay().pending.events.len() == 0,
{
}

/// A batch is posted as it was gathered: the events that wait, the numbers that they cover,
/// the stream's epoch, and whether it begins with a snapshot.
pub proof fn law_batches_are_what_waits(batch: Option<RelayBatch<'_>>, relay: RelayView)
    requires
        is_batch(batch, relay),
    ensures
        batch is Some <==> relay.stream.epoch is Some && relay.pending.seq_range is Some,
        batch matches Some(b) ==> b.events@ == relay.pending.events && Some(b.seq_range)
            == relay.pending.seq_range && b.snapshot == relay.pending.snapshot && Some(b.epoch@)
            == relay.stream.epoch,
{
}

/// A message holds what its payload says: the text under `epoch`, the truth under
/// `snapshot` and the array under `events`; what is missing, or of another type, is empty.
pub proof fn law_messages_hold_their_payload(m: KvMessage, seq: u64, payload: JsonValue)
    requires
        is_message(m, seq, payload),
    ensures
        m.seq == seq,
        json::json_field(payload, "epoch"@) matches Some(v) ==> (json::json_str(v) matches Some(s)
            ==> m.epoch@ == s),
        json::json_field(payload, "epoch"@) is None ==> m.epoch@.len() == 0,
        m.snapshot <==> (json::json_field(payload, "snapshot"@) matches Some(v) && json::json_bool(
            v,
        ) == Some(true)),
        json::json_field(payload, "events"@) matches Some(v) ==> (json::json_array(v) matches Some(
            items,
        ) ==> m.events@ == items),
        json::json_field(payload, "events"@) is None ==> m.events@.len() == 0,
{
}

/// A sidecar that reports an error, or has no results, has no endpoint; otherwise its
/// endpoint is the first text among them.
pub proof fn law_failed_sidecars_have_no_endpoint(prediction: PredictionView)
    ensures
        prediction.error is Some || prediction.results is None ==> endpoint_of(prediction) is None,
        endpoint_of(prediction) matches Some(s) ==> (prediction.results matches Some(values)
            && values.contains(ValueView::String(s))),
        prediction.error is None ==> (prediction.results matches Some(values) ==> endpoint_of(
            prediction,
        ) == first_text(values)),
{
    if let Some(values) = prediction.results {
        law_first_text_is_first(values);
    }
}

/// Every message can be judged but a delta of the stream's own epoch behind the last number
/// that there is.
pub proof fn law_messages_can_be_judged(
    stream: ContinuityView,
    epoch: Seq<char>,
    snapshot: bool,
)
    ensures
        !can_judge(stream, epoch, snapshot) <==> !snapshot && (stream.epoch is None || stream.epoch
            == Some(epoch)) && stream.last_seq == Some(u64::MAX),
{
}

/// How a message is admitted does not depend on what it holds: a snapshot always is one, a
/// delta is one where it is of the stream's epoch and directly follows, and anything else is
/// a gap, which leaves the stream where it was.
pub proof fn law_admission(
    stream: ContinuityView,
    epoch: Seq<char>,
    seq: u64,
    snapshot: bool,
)
    ensures
        ({
            let fits = (stream.epoch is None || stream.epoch == Some(epoch)) && (stream.last_seq
                is None || stream.last_seq->0 + 1 == seq);
            let verdict = admitted(stream, epoch, seq, snapshot);
            let next = stream_after(stream, epoch, seq, snapshot);
            &&& verdict == Admit::Snapshot <==> snapshot
            &&& verdict == Admit::Delta <==> !snapshot && fits
            &&& verdict == Admit::Gap <==> !snapshot && !fits
            &&& verdict == Admit::Gap ==> next == stream
            &&& verdict != Admit::Gap ==> next.epoch == Some(epoch) && next.last_seq == Some(seq)
        }),
{
}

/// What waits grows by what is admitted: a snapshot replaces it, a delta goes behind it and
/// moves the last number, and a gap leaves it.
pub proof fn law_admitted_events_wait(
    pending: PendingView,
    verdict: Admit,
    seq: u64,
    events: Seq<JsonValue>,
)
    ensures
        ({
            let next = pending_after(pending, verdict, seq, events);
            &&& verdict == Admit::Snapshot ==> next.events == events && next.snapshot
                && next.seq_range == Some((seq, seq))
            &&& verdict == Admit::Delta ==> next.events == pending.events + events && next.snapshot
                == pending.snapshot
            &&& verdict == Admit::Delta && pending.seq_range is Some ==> next.seq_range == Some(
                ((pending.seq_range->0).0, seq),
            )
            &&& verdict == Admit::Delta && pending.seq_range is None ==> next.seq_range == Some(
                (seq, seq),
            )
            &&& verdict == Admit::Gap ==> next == pending
        }),
{
}

/// After a scan every ready model is relayed, looked up, or known not to be routed, and just
/// one of these unless it is relayed. A task is cancelled exactly where its model is gone,
/// and nothing is remembered of models that are gone.
pub proof fn law_scans_cover_the_ready_models(
    plan: ScanPlan,
    tasks: Seq<RelayTask>,
    not_routed: Set<Seq<char>>,
    ready: Seq<String>,
    i: int,
    k: int,
)
    requires
        is_scan(plan, tasks, not_routed, ready),
        0 <= i < ready.len(),
        0 <= k < tasks.len(),
    ensures
        ({
            let tag = ready[i]@;
            let running = exists|j: int|
                0 <= j < tasks.len() && (#[trigger] tasks[j]).tag@ == tag && !tasks[j].finished;
            let looked_up = exists|j: int|
                0 <= j < plan.discover@.len() && (#[trigger] plan.discover@[j])@ == tag;
            &&& looked_up <==> !running && !not_routed.contains(tag)
            &&& plan.not_routed@.contains(tag) <==> not_routed.contains(tag)
            &&& forall|j: int|
                0 <= j < plan.cancel@.len() ==> (#[trigger] plan.cancel@[j])@ != tag
        }),
        (exists|j: int| 0 <= j < plan.cancel@.len() && (#[trigger] plan.cancel@[j])@ == tasks[k].tag@)
            <==> forall|j: int| 0 <= j < ready.len() ==> (#[trigger] ready[j])@ != tasks[k].tag@,
        forall|name: Seq<char>| #[trigger]
            plan.not_routed@.contains(name) ==> exists|j: int|
                0 <= j < ready.len() && (#[trigger] ready[j])@ == name,
{
    let tag = ready[i]@;
    assert(holds(ready, tag));
    assert(holds(plan.discover@, tag) <==> !is_relayed(tasks, tag) && !not_routed.contains(tag));
    assert(!holds(plan.cancel@, tag));
    let gone = tasks[k].tag@;
    assert(holds(plan.cancel@, gone) <==> !holds(ready, gone));
    assert forall|name: Seq<char>| #[trigger] plan.not_routed@.contains(name) implies exists|j: int|
        0 <= j < ready.len() && (#[trigger] ready[j])@ == name by {
        assert(holds(ready, name));
    }
}

} // verus!
